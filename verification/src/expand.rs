//! Variable expansion: in unquoted text, each `$name` stands for the value of the variable
//! `name` (or for `name` itself when there is no such variable); quoted text stays as it is.
use vstd::prelude::*;
use crate::parser::primitives::{leading_non, lemma_leading_non};
use crate::text::{chars_of, push_char, str_equals, string_of};
use crate::table::{keys_unique, lemma_pairs_map, pairs_map};
use crate::token::{PartView, Token, TokenPart, token_text};
use vstd::string::*;

verus! {

/// The pieces of `s` between `$` signs, as `str::split('$')` gives them: one more piece than
/// there are `$` signs.
pub open spec fn dollar_pieces(s: Seq<char>) -> Seq<Seq<char>>
    decreases s.len(),
{
    let k = leading_non(s, '$');
    if k < s.len() {
        seq![s.take(k as int)] + dollar_pieces(s.skip(k + 1int))
    } else {
        seq![s]
    }
}

/// The value of the first variable named `name` in `vars`, if any.
pub open spec fn lookup(vars: Seq<(Seq<char>, Seq<char>)>, name: Seq<char>) -> Option<Seq<char>>
    decreases vars.len(),
{
    if vars.len() == 0 {
        None
    } else if vars[0].0 == name {
        Some(vars[0].1)
    } else {
        lookup(vars.skip(1), name)
    }
}

/// What `$name` stands for: the variable's value, or `name` itself.
pub open spec fn substitute(vars: Seq<(Seq<char>, Seq<char>)>, name: Seq<char>) -> Seq<char> {
    match lookup(vars, name) {
        Some(v) => v,
        None => name,
    }
}

/// The substitutions of the names in `names`, one after the other.
pub open spec fn substituted(vars: Seq<(Seq<char>, Seq<char>)>, names: Seq<Seq<char>>) -> Seq<
    char,
>
    decreases names.len(),
{
    if names.len() == 0 {
        Seq::empty()
    } else {
        substituted(vars, names.drop_last()) + substitute(vars, names.last())
    }
}

/// Unquoted text with its variables expanded: the text before the first `$`, then the
/// substitution of each piece after a `$`.
pub open spec fn expand_unquoted(vars: Seq<(Seq<char>, Seq<char>)>, s: Seq<char>) -> Seq<char> {
    let pieces = dollar_pieces(s);
    pieces[0] + substituted(vars, pieces.skip(1))
}

/// The expansion of a part: unquoted text is expanded, quoted text kept.
pub open spec fn expand_part(vars: Seq<(Seq<char>, Seq<char>)>, p: PartView) -> Seq<char> {
    match p {
        PartView::Unquoted(s) => expand_unquoted(vars, s),
        PartView::SingleQuoted(s) => s,
        PartView::DoubleQuoted(s) => s,
    }
}

/// The expansion of a token: its parts' expansions, one after the other.
pub open spec fn expand_token(vars: Seq<(Seq<char>, Seq<char>)>, parts: Seq<PartView>) -> Seq<
    char,
>
    decreases parts.len(),
{
    if parts.len() == 0 {
        Seq::empty()
    } else {
        expand_token(vars, parts.drop_last()) + expand_part(vars, parts.last())
    }
}

/// The views of a list of variables.
pub open spec fn vars_view(vars: Seq<(String, String)>) -> Seq<(Seq<char>, Seq<char>)> {
    vars.map_values(|p: (String, String)| (p.0@, p.1@))
}

/// The value of the first variable named `name`, if any.
fn find_var<'a>(vars: &'a Vec<(String, String)>, name: &str) -> (r: Option<&'a str>)
    ensures
        match lookup(vars_view(vars@), name@) {
            Some(v) => r matches Some(x) && x@ == v,
            None => r is None,
        },
{
    let ghost vv = vars_view(vars@);
    let mut i: usize = 0;
    assert(vv.skip(0) =~= vv);
    while i < vars.len()
        invariant
            i <= vars@.len(),
            vv == vars_view(vars@),
            lookup(vv, name@) == lookup(vv.skip(i as int), name@),
        decreases vars.len() - i,
    {
        assert(vv.skip(i as int)[0] == (vars@[i as int].0@, vars@[i as int].1@));
        if str_equals(vars[i].0.as_str(), name) {
            return Some(vars[i].1.as_str());
        }
        assert(vv.skip(i as int).skip(1) =~= vv.skip(i + 1));
        i += 1;
    }
    None
}

/// The position of the first `$` at or after `from`, or the end.
fn next_dollar(v: &Vec<char>, from: usize) -> (r: usize)
    requires
        from <= v@.len(),
    ensures
        r == from + leading_non(v@.skip(from as int), '$'),
        r <= v@.len(),
        r < v@.len() ==> v@[r as int] == '$',
{
    proof {
        lemma_leading_non(v@.skip(from as int), '$');
    }
    let mut j = from;
    while j < v.len() && v[j] != '$'
        invariant
            from <= j <= v@.len(),
            forall|m: int| from <= m < j ==> v@[m] != '$',
        decreases v.len() - j,
    {
        j += 1;
    }
    proof {
        let t = v@.skip(from as int);
        let l = leading_non(t, '$') as int;
        if l < j - from {
            assert(t[l] == v@[from + l]);
        } else if l > j - from {
            assert(t[j - from] == v@[j as int]);
        }
    }
    j
}

/// Expands the variables of unquoted text `s` (see `expand_unquoted`), appending to `out`.
fn push_expanded(out: &mut String, s: &str, vars: &Vec<(String, String)>)
    ensures
        final(out)@ == old(out)@ + expand_unquoted(vars_view(vars@), s@),
{
    let ghost vv = vars_view(vars@);
    let chars = chars_of(s);
    let n = chars.len();
    assert(chars@.skip(0) =~= chars@);
    let k = next_dollar(&chars, 0);
    let prefix = string_of(&chars, 0, k);
    out.append(prefix.as_str());
    if k == n {
        assert(prefix@ =~= s@);
        assert(dollar_pieces(s@).skip(1) =~= Seq::<Seq<char>>::empty());
        assert(out@ =~= old(out)@ + expand_unquoted(vv, s@));
        return;
    }
    let ghost head = out@;
    assert(dollar_pieces(s@) =~= seq![prefix@] + dollar_pieces(chars@.skip(k + 1)));
    let ghost mut done: Seq<Seq<char>> = Seq::empty();
    let mut i = k + 1;
    assert(done + dollar_pieces(chars@.skip(i as int)) =~= dollar_pieces(chars@.skip(k + 1)));
    loop
        invariant
            k < i <= n,
            n == chars@.len(),
            chars@ == s@,
            vv == vars_view(vars@),
            dollar_pieces(s@) == seq![prefix@] + dollar_pieces(chars@.skip(k + 1)),
            dollar_pieces(chars@.skip(k + 1)) == done + dollar_pieces(chars@.skip(i as int)),
            head == old(out)@ + prefix@,
            out@ == head + substituted(vv, done),
        decreases n - i,
    {
        let j = next_dollar(&chars, i);
        let piece = string_of(&chars, i, j);
        let ghost rest = chars@.skip(i as int);
        assert(piece@ =~= rest.take(j - i));
        match find_var(vars, piece.as_str()) {
            Some(value) => {
                out.append(value);
            },
            None => {
                out.append(piece.as_str());
            },
        }
        proof {
            let old_done = done;
            done = done.push(piece@);
            assert(done.drop_last() =~= old_done);
        }
        if j == n {
            assert(dollar_pieces(rest) =~= seq![piece@]);
            assert(dollar_pieces(chars@.skip(k + 1)) =~= done);
            assert(dollar_pieces(s@).skip(1) =~= done);
            return;
        }
        assert(rest.skip(j - i + 1) =~= chars@.skip(j + 1));
        assert(dollar_pieces(chars@.skip(k + 1)) =~= done + dollar_pieces(chars@.skip(j + 1)));
        i = j + 1;
    }
}

impl Token {
    /// The token's text with the variables of its unquoted parts expanded (see
    /// `expand_token`).
    pub fn expand(&self, vars: &Vec<(String, String)>) -> (r: String)
        ensures
            r@ == expand_token(vars_view(vars@), self@),
    {
        let ghost vv = vars_view(vars@);
        let mut result = String::new();
        let mut i: usize = 0;
        while i < self.parts.len()
            invariant
                i <= self.parts@.len(),
                vv == vars_view(vars@),
                result@ == expand_token(vv, self@.take(i as int)),
            decreases self.parts.len() - i,
        {
            assert(self@.take(i + 1).drop_last() =~= self@.take(i as int));
            assert(self@.take(i + 1).last() == self.parts@[i as int]@);
            match &self.parts[i] {
                TokenPart::Unquoted(s) => {
                    push_expanded(&mut result, s.as_str(), vars);
                },
                TokenPart::SingleQuoted(s) => {
                    result.append(s.as_str());
                },
                TokenPart::DoubleQuoted(s) => {
                    result.append(s.as_str());
                },
            }
            i += 1;
        }
        assert(self@.take(self.parts.len() as int) =~= self@);
        result
    }
}

/// Unquoted text without a `$` expands to itself.
pub proof fn lemma_expand_without_dollar(vars: Seq<(Seq<char>, Seq<char>)>, s: Seq<char>)
    requires
        !s.contains('$'),
    ensures
        expand_unquoted(vars, s) == s,
{
    lemma_leading_non(s, '$');
    if leading_non(s, '$') < s.len() {
        assert(s[leading_non(s, '$') as int] == '$');
    }
    assert(dollar_pieces(s).skip(1) =~= Seq::<Seq<char>>::empty());
    assert(s + Seq::<char>::empty() =~= s);
}

/// Whether no unquoted part of a token holds a `$`.
pub open spec fn no_unquoted_dollar(parts: Seq<PartView>) -> bool {
    forall|i: int|
        #![trigger parts[i]]
        0 <= i < parts.len() ==> (parts[i] matches PartView::Unquoted(s) ==> !s.contains('$'))
}

/// A token none of whose unquoted parts holds a `$` expands to its text, whatever the
/// variables.
pub proof fn lemma_expand_plain_token(vars: Seq<(Seq<char>, Seq<char>)>, parts: Seq<PartView>)
    requires
        no_unquoted_dollar(parts),
    ensures
        expand_token(vars, parts) == token_text(parts),
    decreases parts.len(),
{
    if parts.len() > 0 {
        let front = parts.drop_last();
        assert(no_unquoted_dollar(front)) by {
            assert forall|i: int| #![trigger front[i]] 0 <= i < front.len() implies (
            front[i] matches PartView::Unquoted(s) ==> !s.contains('$')) by {
                assert(front[i] == parts[i]);
            }
        }
        lemma_expand_plain_token(vars, front);
        let last = parts.last();
        assert(last == parts[parts.len() - 1]);
        if let PartView::Unquoted(s) = last {
            lemma_expand_without_dollar(vars, s);
        }
    }
}

/// `$name`, for a name without `$`, expands to the variable's value, or to the name itself
/// when there is no such variable.
pub proof fn lemma_expand_variable(vars: Seq<(Seq<char>, Seq<char>)>, name: Seq<char>)
    requires
        !name.contains('$'),
    ensures
        expand_unquoted(vars, seq!['$'] + name) == substitute(vars, name),
{
    let s = seq!['$'] + name;
    assert(leading_non(s, '$') == 0);
    assert(s.take(0) =~= Seq::<char>::empty());
    assert(s.skip(1) =~= name);
    lemma_leading_non(name, '$');
    if leading_non(name, '$') < name.len() {
        assert(name[leading_non(name, '$') as int] == '$');
    }
    assert(dollar_pieces(name) =~= seq![name]);
    assert(dollar_pieces(s) =~= seq![Seq::<char>::empty(), name]);
    assert(dollar_pieces(s).skip(1) =~= seq![name]);
    assert(seq![name].drop_last() =~= Seq::<Seq<char>>::empty());
    assert(substituted(vars, Seq::<Seq<char>>::empty()) == Seq::<char>::empty());
    assert(seq![name].last() == name);
    assert(substituted(vars, seq![name]) =~= Seq::<char>::empty() + substitute(vars, name));
    assert(Seq::<char>::empty() + (Seq::<char>::empty() + substitute(vars, name)) =~= substitute(
        vars,
        name,
    ));
}

proof fn lemma_lookup_position(s: Seq<(Seq<char>, Seq<char>)>, name: Seq<char>)
    requires
        keys_unique(s),
    ensures
        forall|i: int| 0 <= i < s.len() && s[i].0 == name ==> lookup(s, name) == Some(s[i].1),
        (forall|i: int| 0 <= i < s.len() ==> s[i].0 != name) ==> lookup(s, name) is None,
    decreases s.len(),
{
    if s.len() > 0 {
        let t = s.skip(1);
        assert(keys_unique(t)) by {
            assert forall|a: int, b: int|
                0 <= a < t.len() && 0 <= b < t.len() && a != b implies t[a].0 != t[b].0 by {
                assert(t[a] == s[a + 1] && t[b] == s[b + 1]);
            }
        }
        lemma_lookup_position(t, name);
        assert forall|i: int| 0 <= i < s.len() && s[i].0 == name implies lookup(s, name) == Some(
            s[i].1,
        ) by {
            if i > 0 {
                assert(s[0].0 != s[i].0);
                assert(t[i - 1] == s[i]);
            }
        }
        if forall|i: int| 0 <= i < s.len() ==> s[i].0 != name {
            assert forall|i: int| 0 <= i < t.len() implies t[i].0 != name by {
                assert(t[i] == s[i + 1]);
            }
        }
    }
}

/// In a table with each name once, looking a name up in its list of pairs finds the value
/// that the table holds for it.
pub proof fn lemma_lookup_in_table(s: Seq<(Seq<char>, Seq<char>)>, name: Seq<char>)
    requires
        keys_unique(s),
    ensures
        lookup(s, name) == (if pairs_map(s).dom().contains(name) {
            Some(pairs_map(s)[name])
        } else {
            None
        }),
{
    lemma_pairs_map(s);
    lemma_lookup_position(s, name);
    if pairs_map(s).dom().contains(name) {
        let i = choose|i: int| 0 <= i < s.len() && s[i].0 == name;
        assert(pairs_map(s)[s[i].0] == s[i].1);
    }
}

/// A variable that `declare` set is what `$name` expands to: for the shell's variables
/// `vars` (each name once), `$name` expands to the value they hold for `name`.
pub proof fn lemma_expand_declared(s: Seq<(Seq<char>, Seq<char>)>, name: Seq<char>)
    requires
        keys_unique(s),
        pairs_map(s).dom().contains(name),
        !name.contains('$'),
    ensures
        expand_unquoted(s, seq!['$'] + name) == pairs_map(s)[name],
{
    lemma_expand_variable(s, name);
    lemma_lookup_in_table(s, name);
}

} // verus!
