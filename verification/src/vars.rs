//! Shell variables and the `declare` builtin: `declare name=value` sets a variable,
//! `declare -p name` shows it.
use vstd::prelude::*;
use crate::builtin::Output;
use crate::command::{ShellCommand, strings_view};
use crate::parser::primitives::{leading_non, lemma_leading_non};
use crate::table::StringTable;
use crate::text::{chars_of, push_char, str_equals, string_of};
use vstd::string::*;

verus! {

/// Whether `c` may begin a variable name: an ASCII letter or `_`.
pub open spec fn is_name_start(c: char) -> bool {
    ('a' <= c <= 'z') || ('A' <= c <= 'Z') || c == '_'
}

/// Whether `c` may stand in a variable name: an ASCII letter, digit or `_`.
pub open spec fn is_name_char(c: char) -> bool {
    is_name_start(c) || ('0' <= c <= '9')
}

/// Whether `name` is a valid variable name: not empty, a letter or `_` first, then letters,
/// digits and `_`.
pub open spec fn valid_var_name(name: Seq<char>) -> bool {
    &&& name.len() > 0
    &&& is_name_start(name[0])
    &&& forall|i: int| 1 <= i < name.len() ==> is_name_char(#[trigger] name[i])
}

/// What `declare -p name` writes.
pub open spec fn display_text(m: Map<Seq<char>, Seq<char>>, name: Seq<char>) -> Seq<char> {
    if m.dom().contains(name) {
        "declare -- "@ + name + "=\""@ + m[name] + "\""@ + seq!['\n']
    } else {
        "declare: "@ + name + ": not found"@ + seq!['\n']
    }
}

/// What `declare` does with the variables `m`, given its arguments: the variables afterwards,
/// and the text it writes.
pub open spec fn declare_outcome(args: Seq<Seq<char>>, m: Map<Seq<char>, Seq<char>>) -> (
    Map<Seq<char>, Seq<char>>,
    Seq<char>,
) {
    let usage = "Usage: declare [-p] [name]"@ + seq!['\n'];
    if args.len() == 0 {
        (m, usage)
    } else if args[0] == "-p"@ {
        if args.len() > 1 {
            (m, display_text(m, args[1]))
        } else {
            (m, usage)
        }
    } else {
        let kv = args[0];
        let k = leading_non(kv, '=');
        if k < kv.len() {
            let name = kv.take(k as int);
            let value = kv.skip(k + 1int);
            if valid_var_name(name) {
                (m.insert(name, value), Seq::empty())
            } else {
                (m, "declare: `"@ + name + "="@ + value + "': not a valid identifier"@ + seq!['\n'])
            }
        } else {
            (m, usage)
        }
    }
}

/// The shell's variables.
pub struct Vars {
    vars: StringTable,
}

impl Vars {
    /// The variables: name to value.
    pub closed spec fn contents(&self) -> Map<Seq<char>, Seq<char>> {
        self.vars.contents()
    }

    /// The table's internal consistency.
    pub closed spec fn wf(&self) -> bool {
        self.vars.wf()
    }

    /// No variables.
    pub fn new() -> (v: Vars)
        ensures
            v.wf(),
            v.contents() == Map::<Seq<char>, Seq<char>>::empty(),
    {
        Vars { vars: StringTable::new() }
    }

    /// The variables as (name, value) pairs, each name once.
    pub fn pairs(&self) -> (r: &Vec<(String, String)>)
        requires
            self.wf(),
        ensures
            crate::table::keys_unique(crate::table::pairs_view(r@)),
            crate::table::pairs_map(crate::table::pairs_view(r@)) == self.contents(),
    {
        self.vars.pairs()
    }

    /// Whether `name` is a valid variable name (see `valid_var_name`).
    pub fn validate_var_name(&self, name: &str) -> (r: bool)
        ensures
            r == valid_var_name(name@),
    {
        let c = chars_of(name);
        if c.len() == 0 {
            return false;
        }
        let first = c[0];
        if !(('a' <= first && first <= 'z') || ('A' <= first && first <= 'Z') || first == '_') {
            return false;
        }
        let mut i: usize = 1;
        while i < c.len()
            invariant
                1 <= i <= c@.len(),
                c@ == name@,
                forall|k: int| 1 <= k < i ==> is_name_char(#[trigger] c@[k]),
            decreases c.len() - i,
        {
            let ch = c[i];
            if !(('a' <= ch && ch <= 'z') || ('A' <= ch && ch <= 'Z') || ch == '_' || ('0' <= ch
                && ch <= '9')) {
                assert(!is_name_char(c@[i as int]));
                return false;
            }
            i += 1;
        }
        true
    }

    /// `declare -p name`: writes the variable, or that there is none.
    pub fn display_var(&self, name: &str, output: &mut Output)
        requires
            self.wf(),
        ensures
            final(output).stdout@ == old(output).stdout@ + display_text(self.contents(), name@),
            final(output).stderr@ == old(output).stderr@,
    {
        match self.vars.get(name) {
            Some(value) => {
                output.stdout.append("declare -- ");
                output.stdout.append(name);
                output.stdout.append("=\"");
                output.stdout.append(value);
                output.stdout.append("\"");
                push_char(&mut output.stdout, '\n');
            },
            None => {
                output.stdout.append("declare: ");
                output.stdout.append(name);
                output.stdout.append(": not found");
                push_char(&mut output.stdout, '\n');
            },
        }
    }

    /// `declare`: sets or shows variables (see `declare_outcome`).
    pub fn declare_cmd(&mut self, command: &ShellCommand, output: &mut Output)
        requires
            old(self).wf(),
        ensures
            final(self).wf(),
            final(self).contents() == declare_outcome(
                strings_view(command.args@),
                old(self).contents(),
            ).0,
            final(output).stdout@ == old(output).stdout@ + declare_outcome(
                strings_view(command.args@),
                old(self).contents(),
            ).1,
            final(output).stderr@ == old(output).stderr@,
    {
        let ghost args = strings_view(command.args@);
        if command.args.len() == 0 {
            output.stdout.append("Usage: declare [-p] [name]");
            push_char(&mut output.stdout, '\n');
            return;
        }
        let first = command.args[0].as_str();
        assert(args[0] == first@);
        if str_equals(first, "-p") {
            if command.args.len() > 1 {
                assert(args[1] == command.args@[1]@);
                self.display_var(command.args[1].as_str(), output);
            } else {
                output.stdout.append("Usage: declare [-p] [name]");
                push_char(&mut output.stdout, '\n');
            }
            return;
        }
        let kv = chars_of(first);
        proof {
            lemma_leading_non(kv@, '=');
        }
        let mut k: usize = 0;
        while k < kv.len() && kv[k] != '='
            invariant
                k <= kv@.len(),
                forall|m: int| 0 <= m < k ==> kv@[m] != '=',
            decreases kv.len() - k,
        {
            k += 1;
        }
        proof {
            let l = leading_non(kv@, '=') as int;
            if l < k {
                assert(kv@[l] == '=');
            } else if l > k {
                assert(kv@[k as int] != '=');
            }
        }
        if k == kv.len() {
            output.stdout.append("Usage: declare [-p] [name]");
            push_char(&mut output.stdout, '\n');
            return;
        }
        let name = string_of(&kv, 0, k);
        let value = string_of(&kv, k + 1, kv.len());
        assert(name@ =~= kv@.take(k as int));
        assert(value@ =~= kv@.skip(k + 1));
        if !self.validate_var_name(name.as_str()) {
            output.stdout.append("declare: `");
            output.stdout.append(name.as_str());
            output.stdout.append("=");
            output.stdout.append(value.as_str());
            output.stdout.append("': not a valid identifier");
            push_char(&mut output.stdout, '\n');
            return;
        }
        self.vars.insert(name, value);
        assert(output.stdout@ =~= old(output).stdout@ + Seq::<char>::empty());
    }
}

/// What `declare` sets, `declare -p` shows: after `declare name=value` with a valid name and
/// no `=` in it, `declare -p name` writes `declare -- name="value"`.
pub proof fn lemma_declare_then_display(
    m: Map<Seq<char>, Seq<char>>,
    name: Seq<char>,
    value: Seq<char>,
)
    requires
        valid_var_name(name),
    ensures
        declare_outcome(
            seq!["-p"@, name],
            declare_outcome(seq![name + seq!['='] + value], m).0,
        ).1 == "declare -- "@ + name + "=\""@ + value + "\""@ + seq!['\n'],
{
    let kv = name + seq!['='] + value;
    lemma_leading_non(kv, '=');
    assert(!name.contains('=')) by {
        if name.contains('=') {
            let i = choose|i: int| 0 <= i < name.len() && name[i] == '=';
            if i > 0 {
                assert(is_name_char(name[i]));
            }
        }
    }
    let k = leading_non(kv, '=');
    assert(k == name.len()) by {
        if k < name.len() {
            assert(kv[k as int] == name[k as int]);
        }
        assert(kv[name.len() as int] == '=');
    }
    assert(kv.take(k as int) =~= name);
    assert(kv.skip(k + 1int) =~= value);
    reveal_strlit("-p");
    assert(kv != "-p"@) by {
        if kv == "-p"@ {
            assert(kv[0] == '-');
            assert(is_name_start(name[0]));
        }
    }
    assert(seq![kv][0] == kv);
    assert(seq!["-p"@, name][0] == "-p"@ && seq!["-p"@, name][1] == name);
}

} // verus!
