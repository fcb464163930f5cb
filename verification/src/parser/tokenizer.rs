//! The tokenizer: a command line becomes a list of tokens, each a run of unquoted,
//! single-quoted and double-quoted parts. Operators such as `|`, `>` and `&` are ordinary
//! characters here; they stand apart only when whitespace separates them.
use vstd::prelude::*;
use crate::command::{lemma_spaced_front, spaced};
use crate::token::{PartView, Token, TokenPart, tokens_view};
use crate::text::chars_of;
use super::primitives::{
    ScanStop, computes, escape_drops_backslash, escape_test, is_whitespace, is_whitespace_char,
    leading_non, leading_whitespace, lemma_leading_non, lemma_leading_whitespace,
    lemma_leading_until, lemma_scan_bounds, lemma_scan_without_backslash, leading_until,
    match_double_quote, match_single_quote, match_until_char,
    match_until_pred_with_escape, scan_escaped, scan_until, stop_test, stops_scan,
    zero_or_more_whitespace,
};
use vstd::string::*;

verus! {

/// A single-quoted part at the front of `s`: everything up to the next single quote, taken
/// literally. `None` unless `s` starts with a quote that is closed later.
pub open spec fn single_quoted_part(s: Seq<char>) -> Option<(nat, Seq<char>)> {
    if s.len() > 1 && s[0] == '\'' {
        let k = leading_non(s.skip(1), '\'');
        if k + 1 < s.len() && s[k + 1int] == '\'' {
            Some(((k + 2) as nat, s.subrange(1, k + 1int)))
        } else {
            None
        }
    } else {
        None
    }
}

/// A double-quoted part at the front of `s`: up to the next unescaped double quote, where a
/// backslash escapes only `"`, `\`, `$`, `` ` `` and a newline.
pub open spec fn double_quoted_part(s: Seq<char>) -> Option<(nat, Seq<char>)> {
    if s.len() > 1 && s[0] == '"' {
        let (n, t) = scan_escaped(s.skip(1), ScanStop::DoubleQuote);
        if n + 1 < s.len() && s[n + 1int] == '"' {
            Some(((n + 2) as nat, t))
        } else {
            None
        }
    } else {
        None
    }
}

/// An unquoted part at the front of `s`: up to whitespace or a quote, a backslash escaping any
/// character. `None` when that text is empty.
pub open spec fn unquoted_part(s: Seq<char>) -> Option<(nat, Seq<char>)> {
    let (n, t) = scan_escaped(s, ScanStop::Word);
    if t.len() > 0 {
        Some((n, t))
    } else {
        None
    }
}

/// The part at the front of `s`: single-quoted, else double-quoted, else unquoted.
pub open spec fn token_part(s: Seq<char>) -> Option<(nat, PartView)> {
    match single_quoted_part(s) {
        Some((n, t)) => Some((n, PartView::SingleQuoted(t))),
        None => match double_quoted_part(s) {
            Some((n, t)) => Some((n, PartView::DoubleQuoted(t))),
            None => match unquoted_part(s) {
                Some((n, t)) => Some((n, PartView::Unquoted(t))),
                None => None,
            },
        },
    }
}

/// Every part reads at least one character and no more than there are.
pub proof fn lemma_token_part_bounds(s: Seq<char>)
    ensures
        token_part(s) matches Some((n, p)) ==> 0 < n <= s.len(),
{
    lemma_leading_non(s.skip(1), '\'');
    if s.len() > 1 {
        lemma_scan_bounds(s.skip(1), ScanStop::DoubleQuote);
    }
    lemma_scan_bounds(s, ScanStop::Word);
}

/// The parts at the front of `s`, read one after the other for as long as one can be read:
/// how many characters they take, and the parts.
pub open spec fn token_parts(s: Seq<char>) -> (nat, Seq<PartView>)
    decreases s.len(),
{
    match token_part(s) {
        Some((n, p)) => if 0 < n <= s.len() {
            let rest = token_parts(s.skip(n as int));
            ((n + rest.0) as nat, seq![p] + rest.1)
        } else {
            (0, Seq::empty())
        },
        None => (0, Seq::empty()),
    }
}

/// A token at the front of `s`: leading whitespace, then one or more parts.
pub open spec fn token_at(s: Seq<char>) -> Option<(nat, Seq<PartView>)> {
    let w = leading_whitespace(s);
    let (m, parts) = token_parts(s.skip(w as int));
    if parts.len() > 0 {
        Some(((w + m) as nat, parts))
    } else {
        None
    }
}

pub proof fn lemma_token_parts_bounds(s: Seq<char>)
    ensures
        token_parts(s).0 <= s.len(),
        token_parts(s).1.len() > 0 ==> token_parts(s).0 > 0,
    decreases s.len(),
{
    lemma_token_part_bounds(s);
    if let Some((n, p)) = token_part(s) {
        lemma_token_parts_bounds(s.skip(n as int));
    }
}

pub proof fn lemma_token_at_bounds(s: Seq<char>)
    ensures
        token_at(s) matches Some((n, parts)) ==> 0 < n <= s.len(),
{
    lemma_leading_whitespace(s);
    lemma_token_parts_bounds(s.skip(leading_whitespace(s) as int));
}

/// The tokens at the front of `s`, read one after the other for as long as one can be read.
pub open spec fn tokens_at(s: Seq<char>) -> (nat, Seq<Seq<PartView>>)
    decreases s.len(),
{
    match token_at(s) {
        Some((n, t)) => if 0 < n <= s.len() {
            let rest = tokens_at(s.skip(n as int));
            ((n + rest.0) as nat, seq![t] + rest.1)
        } else {
            (0, Seq::empty())
        },
        None => (0, Seq::empty()),
    }
}

pub proof fn lemma_tokens_at_bounds(s: Seq<char>)
    ensures
        tokens_at(s).0 <= s.len(),
    decreases s.len(),
{
    lemma_token_at_bounds(s);
    if let Some((n, t)) = token_at(s) {
        lemma_tokens_at_bounds(s.skip(n as int));
    }
}

/// What the tokenizer makes of `s`: `None` when not even one token can be read; otherwise how
/// many characters the tokens take and the tokens.
pub open spec fn tokenize_spec(s: Seq<char>) -> Option<(nat, Seq<Seq<PartView>>)> {
    let (n, ts) = tokens_at(s);
    if ts.len() > 0 {
        Some((n, ts))
    } else {
        None
    }
}

/// Reads a single-quoted part at `pos`.
fn single_quote_part(input: &Vec<char>, pos: usize) -> (r: Result<(usize, TokenPart), usize>)
    requires
        pos <= input.len(),
    ensures
        match single_quoted_part(input@.skip(pos as int)) {
            Some((n, t)) => r matches Ok((next, part)) && next == pos + n && part@
                == PartView::SingleQuoted(t),
            None => r is Err,
        },
{
    let ghost s = input@.skip(pos as int);
    let p1 = match_single_quote(input, pos)?;
    assert(s.skip(1) =~= input@.skip(p1 as int));
    let (p2, text) = match_until_char(input, p1, '\'')?;
    proof {
        lemma_leading_non(s.skip(1), '\'');
        assert(text@ =~= s.subrange(1, (p2 - pos) as int));
    }
    let p3 = match_single_quote(input, p2)?;
    Ok((p3, TokenPart::SingleQuoted(text)))
}

/// Reads a double-quoted part at `pos`.
fn double_quote_part(input: &Vec<char>, pos: usize) -> (r: Result<(usize, TokenPart), usize>)
    requires
        pos <= input.len(),
    ensures
        match double_quoted_part(input@.skip(pos as int)) {
            Some((n, t)) => r matches Ok((next, part)) && next == pos + n && part@
                == PartView::DoubleQuoted(t),
            None => r is Err,
        },
{
    let ghost s = input@.skip(pos as int);
    let p1 = match_double_quote(input, pos)?;
    assert(s.skip(1) =~= input@.skip(p1 as int));
    let closing = |c: char| -> (b: bool)
        ensures
            b == stops_scan(c, ScanStop::DoubleQuote),
        { c == '"' };
    let escaped = |c: char| -> (b: bool)
        ensures
            b == escape_drops_backslash(c, ScanStop::DoubleQuote),
        { c == '"' || c == '\\' || c == '$' || c == '`' || c == '\n' };
    proof {
        assert(computes(closing, stop_test(ScanStop::DoubleQuote)));
        assert(computes(escaped, escape_test(ScanStop::DoubleQuote)));
        assert(scan_escaped(s.skip(1), ScanStop::DoubleQuote) == scan_until(
            input@.skip(p1 as int),
            stop_test(ScanStop::DoubleQuote),
            escape_test(ScanStop::DoubleQuote),
        ));
    }
    let (p2, text) = match_until_pred_with_escape(input, p1, closing, escaped)?;
    proof {
        lemma_scan_bounds(s.skip(1), ScanStop::DoubleQuote);
    }
    let p3 = match_double_quote(input, p2)?;
    Ok((p3, TokenPart::DoubleQuoted(text)))
}

/// Reads an unquoted part at `pos`.
fn unquoted_token_part(input: &Vec<char>, pos: usize) -> (r: Result<(usize, TokenPart), usize>)
    requires
        pos <= input.len(),
    ensures
        match unquoted_part(input@.skip(pos as int)) {
            Some((n, t)) => r matches Ok((next, part)) && next == pos + n && part@
                == PartView::Unquoted(t),
            None => r == Err::<(usize, TokenPart), usize>(pos),
        },
{
    let ends_word = |c: char| -> (b: bool)
        ensures
            b == stops_scan(c, ScanStop::Word),
        { is_whitespace(c) || c == '"' || c == '\'' };
    let any = |c: char| -> (b: bool)
        ensures
            b == escape_drops_backslash(c, ScanStop::Word),
        { true };
    proof {
        assert(computes(ends_word, stop_test(ScanStop::Word)));
        assert(computes(any, escape_test(ScanStop::Word)));
        assert(scan_escaped(input@.skip(pos as int), ScanStop::Word) == scan_until(
            input@.skip(pos as int),
            stop_test(ScanStop::Word),
            escape_test(ScanStop::Word),
        ));
    }
    match match_until_pred_with_escape(input, pos, ends_word, any) {
        Ok((next, text)) => {
            if !text.as_str().is_empty() {
                Ok((next, TokenPart::Unquoted(text)))
            } else {
                Err(pos)
            }
        },
        Err(e) => {
            assert(input@.skip(pos as int).len() == 0);
            Err(e)
        },
    }
}

/// Reads one part at `pos`: single-quoted, else double-quoted, else unquoted.
fn part(input: &Vec<char>, pos: usize) -> (r: Option<(usize, TokenPart)>)
    requires
        pos <= input.len(),
    ensures
        match token_part(input@.skip(pos as int)) {
            Some((n, p)) => r matches Some((next, part)) && next == pos + n && part@ == p,
            None => r is None,
        },
{
    if let Ok(res) = single_quote_part(input, pos) {
        return Some(res);
    }
    if let Ok(res) = double_quote_part(input, pos) {
        return Some(res);
    }
    if let Ok(res) = unquoted_token_part(input, pos) {
        return Some(res);
    }
    None
}

/// Reads one or more parts at `pos`; `Err(pos)` when not even one can be read.
fn one_or_more_parts(input: &Vec<char>, pos: usize) -> (r: Result<(usize, Vec<TokenPart>), usize>)
    requires
        pos <= input.len(),
    ensures
        token_parts(input@.skip(pos as int)).1.len() == 0 ==> r == Err::<
            (usize, Vec<TokenPart>),
            usize,
        >(pos),
        token_parts(input@.skip(pos as int)).1.len() > 0 ==> (r matches Ok((next, parts))
            && next == pos + token_parts(input@.skip(pos as int)).0 && parts@.map_values(
            |p: TokenPart| p@,
        ) == token_parts(input@.skip(pos as int)).1),
{
    let mut i = pos;
    let mut result: Vec<TokenPart> = Vec::new();
    loop
        invariant
            pos <= i <= input.len(),
            token_parts(input@.skip(pos as int)).0 == (i - pos) + token_parts(
                input@.skip(i as int),
            ).0,
            token_parts(input@.skip(pos as int)).1 == result@.map_values(|p: TokenPart| p@)
                + token_parts(input@.skip(i as int)).1,
        decreases input.len() - i,
    {
        let ghost s = input@.skip(i as int);
        proof {
            lemma_token_part_bounds(s);
        }
        match part(input, i) {
            Some((next, p)) => {
                let ghost pv = p@;
                let ghost before = result@.map_values(|p: TokenPart| p@);
                assert(s.skip(next - i) =~= input@.skip(next as int));
                result.push(p);
                assert(result@.map_values(|p: TokenPart| p@) =~= before.push(pv));
                assert(before + (seq![pv] + token_parts(input@.skip(next as int)).1) =~= before.push(
                    pv,
                ) + token_parts(input@.skip(next as int)).1);
                i = next;
            },
            None => {
                assert(token_parts(s).1.len() == 0);
                assert(result@.map_values(|p: TokenPart| p@) + Seq::<PartView>::empty()
                    =~= result@.map_values(|p: TokenPart| p@));
                if result.len() == 0 {
                    return Err(pos);
                }
                return Ok((i, result));
            },
        }
    }
}

/// Reads one token at `pos`: whitespace, then one or more parts. When no part follows the
/// whitespace, `Err` with the position after the whitespace.
fn token(input: &Vec<char>, pos: usize) -> (r: Result<(usize, Token), usize>)
    requires
        pos <= input.len(),
    ensures
        match token_at(input@.skip(pos as int)) {
            Some((n, t)) => r matches Ok((next, tok)) && next == pos + n && tok@ == t,
            None => r == Err::<(usize, Token), usize>(
                (pos + leading_whitespace(input@.skip(pos as int))) as usize,
            ),
        },
{
    let ghost s = input@.skip(pos as int);
    let p1 = zero_or_more_whitespace(input, pos);
    assert(s.skip(leading_whitespace(s) as int) =~= input@.skip(p1 as int));
    let (p2, parts) = one_or_more_parts(input, p1)?;
    Ok((p2, Token { parts }))
}

/// Reads one or more tokens at `pos`; `Err(pos)` when not even one can be read.
fn tokens(input: &Vec<char>, pos: usize) -> (r: Result<(usize, Vec<Token>), usize>)
    requires
        pos <= input.len(),
    ensures
        tokens_at(input@.skip(pos as int)).1.len() == 0 ==> r == Err::<(usize, Vec<Token>), usize>(
            pos,
        ),
        tokens_at(input@.skip(pos as int)).1.len() > 0 ==> (r matches Ok((next, toks)) && next
            == pos + tokens_at(input@.skip(pos as int)).0 && tokens_view(toks@) == tokens_at(
            input@.skip(pos as int),
        ).1),
        r matches Ok((next, toks)) ==> next <= input.len(),
{
    let mut i = pos;
    let mut result: Vec<Token> = Vec::new();
    loop
        invariant
            pos <= i <= input.len(),
            tokens_at(input@.skip(pos as int)).0 == (i - pos) + tokens_at(input@.skip(i as int)).0,
            tokens_at(input@.skip(pos as int)).1 == tokens_view(result@) + tokens_at(
                input@.skip(i as int),
            ).1,
        decreases input.len() - i,
    {
        let ghost s = input@.skip(i as int);
        proof {
            lemma_token_at_bounds(s);
        }
        match token(input, i) {
            Ok((next, t)) => {
                let ghost tv = t@;
                let ghost before = tokens_view(result@);
                assert(s.skip(next - i) =~= input@.skip(next as int));
                result.push(t);
                assert(tokens_view(result@) =~= before.push(tv));
                assert(before + (seq![tv] + tokens_at(input@.skip(next as int)).1) =~= before.push(
                    tv,
                ) + tokens_at(input@.skip(next as int)).1);
                i = next;
            },
            Err(_) => {
                assert(tokens_at(s).1.len() == 0);
                assert(tokens_view(result@) + Seq::<Seq<PartView>>::empty() =~= tokens_view(
                    result@,
                ));
                if result.len() == 0 {
                    return Err(pos);
                }
                return Ok((i, result));
            },
        }
    }
}

/// Splits `input` into tokens. `Ok` with what is left unread and the tokens, when at least one
/// token can be read; otherwise `Err` with the whole input.
pub fn tokenize(input: &str) -> (r: Result<(&str, Vec<Token>), &str>)
    ensures
        match tokenize_spec(input@) {
            Some((n, ts)) => r matches Ok((rest, toks)) && rest@ == input@.skip(n as int)
                && tokens_view(toks@) == ts,
            None => r matches Err(e) && e@ == input@,
        },
{
    let chars = chars_of(input);
    assert(chars@.skip(0) =~= chars@);
    match tokens(&chars, 0) {
        Ok((next, toks)) => {
            let len = input.unicode_len();
            let rest = input.substring_char(next, len);
            assert(rest@ =~= input@.skip(next as int));
            Ok((rest, toks))
        },
        Err(_) => Err(input),
    }
}

/// A plain word: no whitespace, quote or backslash in it.
pub open spec fn is_plain_word(w: Seq<char>) -> bool {
    forall|i: int|
        0 <= i < w.len() ==> !is_whitespace_char(#[trigger] w[i]) && w[i] != '"' && w[i] != '\''
            && w[i] != '\\'
}

/// Nothing can be read from the empty text.
proof fn lemma_nothing_from_empty()
    ensures
        token_at(Seq::<char>::empty()) is None,
        token_parts(Seq::<char>::empty()) == (0nat, Seq::<PartView>::empty()),
        tokens_at(Seq::<char>::empty()) == (0nat, Seq::<Seq<PartView>>::empty()),
{
    let e = Seq::<char>::empty();
    assert(e.skip(0) =~= e);
    assert(token_parts(e) == (0nat, Seq::<PartView>::empty()));
}

/// Operators are ordinary characters: a word with no whitespace, quote or backslash in it is
/// read as one unquoted token, whatever else it holds (`ls|wc`, `sleep&`, `a>b` included).
pub proof fn lemma_plain_word_is_one_token(w: Seq<char>)
    requires
        w.len() > 0,
        is_plain_word(w),
    ensures
        tokenize_spec(w) == Some((w.len(), seq![seq![PartView::Unquoted(w)]])),
{
    lemma_scan_plain_then(w, Seq::<char>::empty());
    assert(w + Seq::<char>::empty() =~= w);
    assert(!is_whitespace_char(w[0]) && w[0] != '\'' && w[0] != '"');
    assert(token_part(w) == Some((w.len(), PartView::Unquoted(w))));
    assert(w.skip(w.len() as int) =~= Seq::<char>::empty());
    lemma_nothing_from_empty();
    assert(token_parts(w) == (w.len(), seq![PartView::Unquoted(w)] + Seq::<PartView>::empty()));
    assert(seq![PartView::Unquoted(w)] + Seq::<PartView>::empty() =~= seq![PartView::Unquoted(w)]);
    assert(leading_whitespace(w) == 0);
    assert(w.skip(0) =~= w);
    assert(token_at(w) == Some((w.len(), seq![PartView::Unquoted(w)])));
    assert(seq![seq![PartView::Unquoted(w)]] + Seq::<Seq<PartView>>::empty() =~= seq![
        seq![PartView::Unquoted(w)],
    ]);
}

/// Tokens that are each one unquoted word.
pub open spec fn bare_tokens(words: Seq<Seq<char>>) -> Seq<Seq<PartView>> {
    words.map_values(|w: Seq<char>| seq![PartView::Unquoted(w)])
}

/// Whether every word is a plain word that is not empty.
pub open spec fn plain_words(words: Seq<Seq<char>>) -> bool {
    forall|i: int| 0 <= i < words.len() ==> #[trigger] words[i].len() > 0 && is_plain_word(words[i])
}

/// A scan of a word reads a plain word whole when the end or whitespace follows it.
proof fn lemma_scan_plain_then(w: Seq<char>, x: Seq<char>)
    requires
        is_plain_word(w),
        x.len() == 0 || is_whitespace_char(x[0]),
    ensures
        scan_escaped(w + x, ScanStop::Word) == (w.len(), w),
    decreases w.len(),
{
    if w.len() == 0 {
        assert(w + x =~= x);
        assert(w =~= Seq::<char>::empty());
    } else {
        let t = w.skip(1);
        assert forall|i: int| 0 <= i < t.len() implies !is_whitespace_char(#[trigger] t[i])
            && t[i] != '"' && t[i] != '\'' && t[i] != '\\' by {
            assert(t[i] == w[i + 1]);
        }
        lemma_scan_plain_then(t, x);
        assert((w + x)[0] == w[0]);
        assert((w + x).skip(1) =~= t + x);
        assert(seq![w[0]] + t =~= w);
    }
}

/// A plain word followed by the end or by whitespace is read as one token of one unquoted
/// part.
proof fn lemma_token_at_plain(w: Seq<char>, x: Seq<char>)
    requires
        w.len() > 0,
        is_plain_word(w),
        x.len() == 0 || is_whitespace_char(x[0]),
    ensures
        token_at(w + x) == Some((w.len(), seq![PartView::Unquoted(w)])),
{
    let s = w + x;
    lemma_scan_plain_then(w, x);
    assert(s[0] == w[0]);
    assert(!is_whitespace_char(w[0]) && w[0] != '\'' && w[0] != '"');
    assert(token_part(s) == Some((w.len(), PartView::Unquoted(w))));
    assert(s.skip(w.len() as int) =~= x);
    lemma_scan_plain_then(Seq::<char>::empty(), x);
    assert(Seq::<char>::empty() + x =~= x);
    assert(token_part(x) is None);
    assert(token_parts(x) == (0nat, Seq::<PartView>::empty()));
    assert(seq![PartView::Unquoted(w)] + Seq::<PartView>::empty() =~= seq![PartView::Unquoted(w)]);
    assert(token_parts(s) == (w.len(), seq![PartView::Unquoted(w)]));
    assert(leading_whitespace(s) == 0);
    assert(s.skip(0) =~= s);
}

/// A space in front of text that starts with a token adds one character to what the tokens
/// take and changes nothing else.
proof fn lemma_tokens_after_space(j: Seq<char>)
    requires
        j.len() > 0,
        !is_whitespace_char(j[0]),
        token_at(j) is Some,
    ensures
        tokens_at(seq![' '] + j) == ((tokens_at(j).0 + 1) as nat, tokens_at(j).1),
{
    let s = seq![' '] + j;
    assert(s.skip(1) =~= j);
    assert(s[0] == ' ');
    assert(leading_whitespace(j) == 0);
    assert(leading_whitespace(s) == 1);
    assert(j.skip(0) =~= j);
    lemma_token_at_bounds(j);
    let m = (token_at(j)->0).0;
    assert(token_at(s) == Some(((m + 1) as nat, (token_at(j)->0).1)));
    assert(s.skip(m + 1int) =~= j.skip(m as int));
}

/// Plain words, each after a single space, are read back as those words, one bare token
/// each.
pub proof fn lemma_spaced_words_tokens(w: Seq<char>, words: Seq<Seq<char>>)
    requires
        w.len() > 0,
        is_plain_word(w),
        plain_words(words),
    ensures
        tokens_at(w + spaced(words)) == (
            (w + spaced(words)).len(),
            bare_tokens(seq![w] + words),
        ),
    decreases words.len(),
{
    if words.len() == 0 {
        lemma_plain_word_is_one_token(w);
        assert(w + spaced(words) =~= w);
        assert(bare_tokens(seq![w] + words) =~= seq![seq![PartView::Unquoted(w)]]);
    } else {
        lemma_spaced_front(words);
        let rest = words.skip(1);
        assert(plain_words(rest)) by {
            assert forall|i: int| 0 <= i < rest.len() implies #[trigger] rest[i].len() > 0
                && is_plain_word(rest[i]) by {
                assert(rest[i] == words[i + 1]);
            }
        }
        assert(words[0].len() > 0 && is_plain_word(words[0]));
        let j = words[0] + spaced(rest);
        lemma_spaced_words_tokens(words[0], rest);
        assert(seq![words[0]] + rest =~= words);
        assert(bare_tokens(words).len() > 0);
        assert(token_at(j) is Some);
        assert(j[0] == words[0][0]);
        let s = w + spaced(words);
        assert(s =~= w + (seq![' '] + j));
        lemma_token_at_plain(w, seq![' '] + j);
        lemma_tokens_after_space(j);
        assert(s.skip(w.len() as int) =~= seq![' '] + j);
        assert(bare_tokens(seq![w] + words) =~= seq![seq![PartView::Unquoted(w)]] + bare_tokens(
            words,
        ));
    }
}

/// Single quotes keep everything between them as it is: `'t'`, for any `t` without a single
/// quote, is one token whose one part is `t`, single-quoted.
pub proof fn lemma_single_quoted_is_literal(t: Seq<char>)
    requires
        forall|i: int| 0 <= i < t.len() ==> t[i] != '\'',
    ensures
        tokenize_spec(seq!['\''] + t + seq!['\'']) == Some(
            ((t.len() + 2) as nat, seq![seq![PartView::SingleQuoted(t)]]),
        ),
{
    let s = seq!['\''] + t + seq!['\''];
    let n = s.len();
    assert(s.skip(1) =~= t + seq!['\'']);
    lemma_leading_non(s.skip(1), '\'');
    let k = leading_non(s.skip(1), '\'');
    assert(k == t.len()) by {
        if k < t.len() {
            assert(s.skip(1)[k as int] == t[k as int]);
        }
        assert(s.skip(1)[t.len() as int] == '\'');
    }
    assert(s.subrange(1, k + 1int) =~= t);
    assert(single_quoted_part(s) == Some((n, t)));
    assert(s.skip(n as int) =~= Seq::<char>::empty());
    lemma_nothing_from_empty();
    assert(token_parts(s) == (n, seq![PartView::SingleQuoted(t)] + Seq::<PartView>::empty()));
    assert(seq![PartView::SingleQuoted(t)] + Seq::<PartView>::empty() =~= seq![
        PartView::SingleQuoted(t),
    ]);
    assert(leading_whitespace(s) == 0);
    assert(s.skip(0) =~= s);
    assert(seq![seq![PartView::SingleQuoted(t)]] + Seq::<Seq<PartView>>::empty() =~= seq![
        seq![PartView::SingleQuoted(t)],
    ]);
}

/// Double quotes keep everything up to the closing quote: `"t"`, for any `t` without a double
/// quote or a backslash (whitespace and single quotes included), is one token whose one part
/// is `t`, double-quoted.
pub proof fn lemma_double_quoted_is_literal(t: Seq<char>)
    requires
        forall|i: int| 0 <= i < t.len() ==> #[trigger] t[i] != '"' && t[i] != '\\',
    ensures
        tokenize_spec(seq!['"'] + t + seq!['"']) == Some(
            ((t.len() + 2) as nat, seq![seq![PartView::DoubleQuoted(t)]]),
        ),
{
    let s = seq!['"'] + t + seq!['"'];
    let n = s.len();
    let x = s.skip(1);
    assert(x =~= t + seq!['"']);
    assert(!x.contains('\\')) by {
        if x.contains('\\') {
            let i = choose|i: int| 0 <= i < x.len() && x[i] == '\\';
            if i < t.len() {
                assert(x[i] == t[i]);
            }
        }
    }
    let stop = stop_test(ScanStop::DoubleQuote);
    let escape = escape_test(ScanStop::DoubleQuote);
    lemma_scan_without_backslash(x, stop, escape);
    lemma_leading_until(x, stop);
    let k = leading_until(x, stop);
    assert(k == t.len()) by {
        assert(x[t.len() as int] == '"');
        assert(stop(x[t.len() as int]));
        if k < t.len() {
            assert(x[k as int] == t[k as int]);
            assert(stop(x[k as int]));
        }
    }
    assert(x.take(k as int) =~= t);
    assert(scan_escaped(x, ScanStop::DoubleQuote) == (t.len(), t));
    assert(s[t.len() + 1int] == '"');
    assert(single_quoted_part(s) is None);
    assert(double_quoted_part(s) == Some((n, t)));
    assert(token_part(s) == Some((n, PartView::DoubleQuoted(t))));
    assert(s.skip(n as int) =~= Seq::<char>::empty());
    lemma_nothing_from_empty();
    assert(token_parts(s) == (n, seq![PartView::DoubleQuoted(t)] + Seq::<PartView>::empty()));
    assert(seq![PartView::DoubleQuoted(t)] + Seq::<PartView>::empty() =~= seq![
        PartView::DoubleQuoted(t),
    ]);
    assert(leading_whitespace(s) == 0);
    assert(s.skip(0) =~= s);
    assert(seq![seq![PartView::DoubleQuoted(t)]] + Seq::<Seq<PartView>>::empty() =~= seq![
        seq![PartView::DoubleQuoted(t)],
    ]);
}

} // verus!
