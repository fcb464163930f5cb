//! The character-level pieces of the tokenizer: whitespace, single characters, and runs of
//! text up to a stop character, with or without backslash escapes.
use vstd::prelude::*;
use crate::text::push_char;

verus! {

/// Unicode `White_Space`, the set of characters that `char::is_whitespace` accepts.
pub open spec fn is_whitespace_char(c: char) -> bool {
    ||| '\u{9}' <= c <= '\u{d}'
    ||| c == ' '
    ||| c == '\u{85}'
    ||| c == '\u{a0}'
    ||| c == '\u{1680}'
    ||| '\u{2000}' <= c <= '\u{200a}'
    ||| c == '\u{2028}'
    ||| c == '\u{2029}'
    ||| c == '\u{202f}'
    ||| c == '\u{205f}'
    ||| c == '\u{3000}'
}

/// Whether `c` is whitespace (Unicode `White_Space`).
pub fn is_whitespace(c: char) -> (r: bool)
    ensures
        r == is_whitespace_char(c),
{
    ('\u{9}' <= c && c <= '\u{d}') || c == ' ' || c == '\u{85}' || c == '\u{a0}' || c
        == '\u{1680}' || ('\u{2000}' <= c && c <= '\u{200a}') || c == '\u{2028}' || c
        == '\u{2029}' || c == '\u{202f}' || c == '\u{205f}' || c == '\u{3000}'
}

/// The two scans that the tokenizer makes: to the end of an unquoted word, or to the closing
/// double quote of a quoted one.
#[derive(Clone, Copy, Debug, PartialEq, Eq)]
pub enum ScanStop {
    Word,
    DoubleQuote,
}

/// Whether an unescaped `c` ends a scan of the given kind.
pub open spec fn stops_scan(c: char, stop: ScanStop) -> bool {
    match stop {
        ScanStop::Word => is_whitespace_char(c) || c == '"' || c == '\'',
        ScanStop::DoubleQuote => c == '"',
    }
}

/// Whether a backslash before `c` is dropped in a scan of the given kind (the pair stands for
/// `c` alone); otherwise both characters are kept.
pub open spec fn escape_drops_backslash(c: char, stop: ScanStop) -> bool {
    match stop {
        ScanStop::Word => true,
        ScanStop::DoubleQuote => c == '"' || c == '\\' || c == '$' || c == '`' || c == '\n',
    }
}

/// The stop test of a scan of the given kind.
pub open spec fn stop_test(stop: ScanStop) -> spec_fn(char) -> bool {
    |c: char| stops_scan(c, stop)
}

/// The escape test of a scan of the given kind.
pub open spec fn escape_test(stop: ScanStop) -> spec_fn(char) -> bool {
    |c: char| escape_drops_backslash(c, stop)
}

/// Reading the front of `s` up to its first unescaped character for which `stop` holds (or to
/// its end): how many characters are read, and the text that they stand for. A backslash takes
/// the character after it, whatever that is, and that character never stops the scan: the
/// pair stands for the character alone when `escape` holds of it, and for both characters
/// otherwise. A backslash at the very end stands for itself.
pub open spec fn scan_until(
    s: Seq<char>,
    stop: spec_fn(char) -> bool,
    escape: spec_fn(char) -> bool,
) -> (nat, Seq<char>)
    decreases s.len(),
{
    if s.len() == 0 {
        (0, Seq::empty())
    } else if s[0] == '\\' {
        if s.len() == 1 {
            (1, seq!['\\'])
        } else {
            let rest = scan_until(s.skip(2), stop, escape);
            let kept = if escape(s[1]) {
                seq![s[1]]
            } else {
                seq!['\\', s[1]]
            };
            ((rest.0 + 2) as nat, kept + rest.1)
        }
    } else if stop(s[0]) {
        (0, Seq::empty())
    } else {
        let rest = scan_until(s.skip(1), stop, escape);
        ((rest.0 + 1) as nat, seq![s[0]] + rest.1)
    }
}

/// A scan of the given kind (see `scan_until`).
pub open spec fn scan_escaped(s: Seq<char>, stop: ScanStop) -> (nat, Seq<char>) {
    scan_until(s, stop_test(stop), escape_test(stop))
}

/// A scan reads no more than there is, reads something whenever it yields text, and, when it
/// ends before the end of the text, ends at a character for which `stop` holds.
pub proof fn lemma_scan_until_bounds(
    s: Seq<char>,
    stop: spec_fn(char) -> bool,
    escape: spec_fn(char) -> bool,
)
    ensures
        scan_until(s, stop, escape).0 <= s.len(),
        scan_until(s, stop, escape).1.len() > 0 ==> scan_until(s, stop, escape).0 > 0,
        scan_until(s, stop, escape).0 < s.len() ==> stop(s[scan_until(s, stop, escape).0 as int]),
    decreases s.len(),
{
    if s.len() == 0 {
    } else if s[0] == '\\' {
        if s.len() > 1 {
            lemma_scan_until_bounds(s.skip(2), stop, escape);
            let n = scan_until(s.skip(2), stop, escape).0;
            if n < s.len() - 2 {
                assert(s[n + 2int] == s.skip(2)[n as int]);
            }
        }
    } else if stop(s[0]) {
    } else {
        lemma_scan_until_bounds(s.skip(1), stop, escape);
        let n = scan_until(s.skip(1), stop, escape).0;
        if n < s.len() - 1 {
            assert(s[n + 1int] == s.skip(1)[n as int]);
        }
    }
}

/// `lemma_scan_until_bounds` for a scan of the given kind.
pub proof fn lemma_scan_bounds(s: Seq<char>, stop: ScanStop)
    ensures
        scan_escaped(s, stop).0 <= s.len(),
        scan_escaped(s, stop).1.len() > 0 ==> scan_escaped(s, stop).0 > 0,
        scan_escaped(s, stop).0 < s.len() ==> stops_scan(s[scan_escaped(s, stop).0 as int], stop),
{
    lemma_scan_until_bounds(s, stop_test(stop), escape_test(stop));
}

/// The number of characters at the front of `s` before the first for which `stop` holds (all
/// of them when there is none): how far a scan without escapes reads.
pub open spec fn leading_until(s: Seq<char>, stop: spec_fn(char) -> bool) -> nat
    decreases s.len(),
{
    if s.len() == 0 || stop(s[0]) {
        0
    } else {
        1 + leading_until(s.skip(1), stop)
    }
}

/// A scan without escapes stops at the first character for which `stop` holds, or at the end.
pub proof fn lemma_leading_until(s: Seq<char>, stop: spec_fn(char) -> bool)
    ensures
        leading_until(s, stop) <= s.len(),
        forall|i: int| 0 <= i < leading_until(s, stop) ==> !stop(#[trigger] s[i]),
        leading_until(s, stop) < s.len() ==> stop(s[leading_until(s, stop) as int]),
    decreases s.len(),
{
    if s.len() > 0 && !stop(s[0]) {
        lemma_leading_until(s.skip(1), stop);
        assert forall|i: int| 0 <= i < leading_until(s, stop) implies !stop(#[trigger] s[i]) by {
            if i > 0 {
                assert(s[i] == s.skip(1)[i - 1]);
            }
        }
        if leading_until(s, stop) < s.len() {
            assert(s[leading_until(s, stop) as int] == s.skip(1)[leading_until(
                s.skip(1),
                stop,
            ) as int]);
        }
    }
}

/// On text without a backslash the escaped scan is the plain one, whatever the stop and escape
/// tests: it reads up to the first character for which `stop` holds (or to the end), and the
/// text read is those characters unchanged.
pub proof fn lemma_scan_without_backslash(
    s: Seq<char>,
    stop: spec_fn(char) -> bool,
    escape: spec_fn(char) -> bool,
)
    requires
        !s.contains('\\'),
    ensures
        leading_until(s, stop) <= s.len(),
        scan_until(s, stop, escape) == (leading_until(s, stop), s.take(leading_until(s, stop) as int)),
    decreases s.len(),
{
    if s.len() == 0 {
        assert(s.take(0) =~= Seq::<char>::empty());
    } else {
        assert(s[0] != '\\');
        if stop(s[0]) {
            assert(s.take(0) =~= Seq::<char>::empty());
        } else {
            let t = s.skip(1);
            assert(!t.contains('\\')) by {
                if t.contains('\\') {
                    let i = choose|i: int| 0 <= i < t.len() && t[i] == '\\';
                    assert(s[i + 1] == '\\');
                }
            }
            lemma_scan_without_backslash(t, stop, escape);
            let k = leading_until(t, stop);
            assert(seq![s[0]] + t.take(k as int) =~= s.take(k + 1int));
        }
    }
}

/// The number of characters at the front of `s` that differ from `c`.
pub open spec fn leading_non(s: Seq<char>, c: char) -> nat
    decreases s.len(),
{
    if s.len() == 0 || s[0] == c {
        0
    } else {
        1 + leading_non(s.skip(1), c)
    }
}

pub proof fn lemma_leading_non(s: Seq<char>, c: char)
    ensures
        leading_non(s, c) <= s.len(),
        forall|i: int| 0 <= i < leading_non(s, c) ==> s[i] != c,
        leading_non(s, c) < s.len() ==> s[leading_non(s, c) as int] == c,
    decreases s.len(),
{
    if s.len() > 0 && s[0] != c {
        lemma_leading_non(s.skip(1), c);
        assert forall|i: int| 0 <= i < leading_non(s, c) implies s[i] != c by {
            if i > 0 {
                assert(s[i] == s.skip(1)[i - 1]);
            }
        }
        if leading_non(s, c) < s.len() {
            assert(s[leading_non(s, c) as int] == s.skip(1)[leading_non(s.skip(1), c) as int]);
        }
    }
}

/// The number of whitespace characters at the front of `s`.
pub open spec fn leading_whitespace(s: Seq<char>) -> nat
    decreases s.len(),
{
    if s.len() > 0 && is_whitespace_char(s[0]) {
        1 + leading_whitespace(s.skip(1))
    } else {
        0
    }
}

pub proof fn lemma_leading_whitespace(s: Seq<char>)
    ensures
        leading_whitespace(s) <= s.len(),
        forall|i: int| 0 <= i < leading_whitespace(s) ==> is_whitespace_char(s[i]),
        leading_whitespace(s) < s.len() ==> !is_whitespace_char(s[leading_whitespace(s) as int]),
    decreases s.len(),
{
    if s.len() > 0 && is_whitespace_char(s[0]) {
        lemma_leading_whitespace(s.skip(1));
        assert forall|i: int| 0 <= i < leading_whitespace(s) implies is_whitespace_char(s[i]) by {
            if i > 0 {
                assert(s[i] == s.skip(1)[i - 1]);
            }
        }
        if leading_whitespace(s) < s.len() {
            assert(s[leading_whitespace(s) as int] == s.skip(1)[leading_whitespace(
                s.skip(1),
            ) as int]);
        }
    }
}

/// Matches the character `expected` at `pos`: `Ok` with the position after it, or `Err(pos)`.
pub fn match_literal(input: &Vec<char>, pos: usize, expected: char) -> (r: Result<usize, usize>)
    requires
        pos <= input.len(),
    ensures
        pos < input.len() && input@[pos as int] == expected ==> r == Ok::<usize, usize>(
            (pos + 1) as usize,
        ),
        !(pos < input.len() && input@[pos as int] == expected) ==> r == Err::<usize, usize>(pos),
{
    if pos < input.len() && input[pos] == expected {
        Ok(pos + 1)
    } else {
        Err(pos)
    }
}

/// Matches a single quote at `pos`.
pub fn match_single_quote(input: &Vec<char>, pos: usize) -> (r: Result<usize, usize>)
    requires
        pos <= input.len(),
    ensures
        pos < input.len() && input@[pos as int] == '\'' ==> r == Ok::<usize, usize>(
            (pos + 1) as usize,
        ),
        !(pos < input.len() && input@[pos as int] == '\'') ==> r == Err::<usize, usize>(pos),
{
    match_literal(input, pos, '\'')
}

/// Matches a double quote at `pos`.
pub fn match_double_quote(input: &Vec<char>, pos: usize) -> (r: Result<usize, usize>)
    requires
        pos <= input.len(),
    ensures
        pos < input.len() && input@[pos as int] == '"' ==> r == Ok::<usize, usize>(
            (pos + 1) as usize,
        ),
        !(pos < input.len() && input@[pos as int] == '"') ==> r == Err::<usize, usize>(pos),
{
    match_literal(input, pos, '"')
}

/// Matches one whitespace character at `pos`.
pub fn whitespace(input: &Vec<char>, pos: usize) -> (r: Result<usize, usize>)
    requires
        pos <= input.len(),
    ensures
        pos < input.len() && is_whitespace_char(input@[pos as int]) ==> r == Ok::<
            usize,
            usize,
        >((pos + 1) as usize),
        !(pos < input.len() && is_whitespace_char(input@[pos as int])) ==> r == Err::<
            usize,
            usize,
        >(pos),
{
    if pos < input.len() && is_whitespace(input[pos]) {
        Ok(pos + 1)
    } else {
        Err(pos)
    }
}

/// Skips the whitespace at `pos`; returns the position of the first character after it.
pub fn zero_or_more_whitespace(input: &Vec<char>, pos: usize) -> (r: usize)
    requires
        pos <= input.len(),
    ensures
        r == pos + leading_whitespace(input@.skip(pos as int)),
        r <= input.len(),
{
    let mut i = pos;
    proof {
        lemma_leading_whitespace(input@.skip(pos as int));
    }
    loop
        invariant
            pos <= i <= input.len(),
            leading_whitespace(input@.skip(pos as int)) == (i - pos) + leading_whitespace(
                input@.skip(i as int),
            ),
        decreases input.len() - i,
    {
        match whitespace(input, i) {
            Ok(next) => {
                assert(input@.skip(i as int).skip(1) =~= input@.skip(next as int));
                i = next;
            },
            Err(_) => {
                return i;
            },
        }
    }
}

/// Whether `f` may be called on any character.
pub open spec fn callable<F: Fn(char) -> bool>(f: F) -> bool {
    forall|c: char| #[trigger] f.requires((c,))
}

/// Whether every value that `f` returns for a character `c` is `spec(c)`: `f` computes `spec`.
pub open spec fn computes<F: Fn(char) -> bool>(f: F, spec: spec_fn(char) -> bool) -> bool {
    forall|c: char, b: bool| #[trigger] f.ensures((c,), b) ==> b == spec(c)
}

/// Reads from `pos` up to the first character for which `pred` holds (or the end of the
/// input). `Err(pos)` when nothing is left to read; otherwise the position of that character
/// (or the end) and the text before it. For every spec function `stop` that `pred` computes,
/// that position is the one `leading_until` gives.
pub fn match_until_pred<P: Fn(char) -> bool>(input: &Vec<char>, pos: usize, pred: P) -> (r: Result<
    (usize, String),
    usize,
>)
    requires
        pos <= input.len(),
        callable(pred),
    ensures
        pos == input.len() ==> r == Err::<(usize, String), usize>(pos),
        pos < input.len() ==> (r matches Ok((next, text)) && pos <= next <= input.len() && text@
            == input@.subrange(pos as int, next as int)),
        forall|stop: spec_fn(char) -> bool|
            #![trigger leading_until(input@.skip(pos as int), stop)]
            pos < input.len() && computes(pred, stop) ==> (r matches Ok((next, text)) && next
                == pos + leading_until(input@.skip(pos as int), stop)),
{
    if pos == input.len() {
        return Err(pos);
    }
    let mut i = pos;
    let mut matched = String::new();
    loop
        invariant
            pos < input.len(),
            pos <= i <= input.len(),
            callable(pred),
            matched@ == input@.subrange(pos as int, i as int),
            forall|stop: spec_fn(char) -> bool|
                #![trigger leading_until(input@.skip(pos as int), stop)]
                computes(pred, stop) ==> leading_until(input@.skip(pos as int), stop) == (i - pos)
                    + leading_until(input@.skip(i as int), stop),
        decreases input.len() - i,
    {
        if i == input.len() {
            proof {
                assert forall|stop: spec_fn(char) -> bool| computes(pred, stop) implies #[trigger] leading_until(
                    input@.skip(pos as int),
                    stop,
                ) == i - pos by {
                    assert(input@.skip(i as int).len() == 0);
                }
            }
            return Ok((i, matched));
        }
        let c = input[i];
        let b = pred(c);
        proof {
            assert(input@.skip(i as int)[0] == c);
            assert(input@.skip(i as int).skip(1) =~= input@.skip(i + 1));
        }
        if b {
            proof {
                assert forall|stop: spec_fn(char) -> bool| computes(pred, stop) implies #[trigger] leading_until(
                    input@.skip(pos as int),
                    stop,
                ) == i - pos by {
                    assert(b == stop(c));
                }
            }
            return Ok((i, matched));
        }
        push_char(&mut matched, c);
        proof {
            assert(input@.subrange(pos as int, i + 1) =~= input@.subrange(pos as int, i as int).push(c));
            assert forall|stop: spec_fn(char) -> bool| computes(pred, stop) implies #[trigger] leading_until(
                input@.skip(pos as int),
                stop,
            ) == (i + 1 - pos) + leading_until(input@.skip(i + 1), stop) by {
                assert(b == stop(c));
            }
        }
        i += 1;
    }
}

/// Reads from `pos` up to the first `ch` (or the end of the input). `Err(pos)` when nothing is
/// left to read; otherwise the position of the `ch` (or the end) and the text before it.
pub fn match_until_char(input: &Vec<char>, pos: usize, ch: char) -> (r: Result<
    (usize, String),
    usize,
>)
    requires
        pos <= input.len(),
    ensures
        pos == input.len() ==> r == Err::<(usize, String), usize>(pos),
        pos < input.len() ==> (r matches Ok((next, text)) && next == pos + leading_non(
            input@.skip(pos as int),
            ch,
        ) && text@ == input@.subrange(pos as int, next as int)),
{
    let is_ch = move |c: char| -> (b: bool)
        ensures
            b == (c == ch),
        { c == ch };
    let r = match_until_pred(input, pos, is_ch);
    proof {
        let stop = |c: char| c == ch;
        assert(computes(is_ch, stop));
        lemma_leading_until_char(input@.skip(pos as int), ch, stop);
        assert(leading_until(input@.skip(pos as int), stop) == leading_non(input@.skip(pos as int), ch));
    }
    r
}

/// A scan without escapes that stops at `ch` reads as far as `leading_non` counts.
proof fn lemma_leading_until_char(s: Seq<char>, ch: char, stop: spec_fn(char) -> bool)
    requires
        forall|c: char| #[trigger] stop(c) == (c == ch),
    ensures
        leading_until(s, stop) == leading_non(s, ch),
    decreases s.len(),
{
    if s.len() > 0 {
        assert(stop(s[0]) == (s[0] == ch));
        lemma_leading_until_char(s.skip(1), ch, stop);
    }
}

/// Reads from `pos` up to the first character for which `pred` holds and that no backslash
/// escapes (or to the end of the input), resolving backslash escapes: a backslash and the
/// character after it stand for that character alone when `should_escape` holds of it, and
/// for both otherwise; a backslash at the very end stands for itself. `Err(pos)` when nothing
/// is left to read; otherwise the position where the scan stopped and the text read. For every
/// pair of spec functions that `pred` and `should_escape` compute, these are what `scan_until`
/// gives.
pub fn match_until_pred_with_escape<P: Fn(char) -> bool, E: Fn(char) -> bool>(
    input: &Vec<char>,
    pos: usize,
    pred: P,
    should_escape: E,
) -> (r: Result<(usize, String), usize>)
    requires
        pos <= input.len(),
        callable(pred),
        callable(should_escape),
    ensures
        pos == input.len() ==> r == Err::<(usize, String), usize>(pos),
        pos < input.len() ==> (r matches Ok((next, text)) && pos <= next <= input.len()),
        forall|stop: spec_fn(char) -> bool, escape: spec_fn(char) -> bool|
            #![trigger scan_until(input@.skip(pos as int), stop, escape)]
            pos < input.len() && computes(pred, stop) && computes(should_escape, escape) ==> (
            r matches Ok((next, text)) && next == pos + scan_until(
                input@.skip(pos as int),
                stop,
                escape,
            ).0 && text@ == scan_until(input@.skip(pos as int), stop, escape).1),
{
    if pos == input.len() {
        return Err(pos);
    }
    let len = input.len();
    let mut i = pos;
    let mut matched = String::new();
    loop
        invariant
            len == input.len(),
            pos < len,
            pos <= i <= len,
            callable(pred),
            callable(should_escape),
            forall|stop: spec_fn(char) -> bool, escape: spec_fn(char) -> bool|
                #![trigger scan_until(input@.skip(pos as int), stop, escape)]
                computes(pred, stop) && computes(should_escape, escape) ==> scan_until(
                    input@.skip(pos as int),
                    stop,
                    escape,
                ).0 == (i - pos) + scan_until(input@.skip(i as int), stop, escape).0
                    && scan_until(input@.skip(pos as int), stop, escape).1 == matched@
                    + scan_until(input@.skip(i as int), stop, escape).1,
        decreases len - i,
    {
        let ghost rest = input@.skip(i as int);
        if i == len {
            proof {
                assert forall|stop: spec_fn(char) -> bool, escape: spec_fn(char) -> bool|
                    computes(pred, stop) && computes(should_escape, escape) implies #[trigger] scan_until(
                    input@.skip(pos as int),
                    stop,
                    escape,
                ) == ((i - pos) as nat, matched@) by {
                    assert(rest.len() == 0);
                    assert(matched@ + Seq::<char>::empty() =~= matched@);
                }
            }
            return Ok((i, matched));
        }
        let c = input[i];
        assert(rest[0] == c);
        if c == '\\' {
            if i + 1 == len {
                let ghost before = matched@;
                push_char(&mut matched, '\\');
                proof {
                    assert(input@.skip(i + 1).len() == 0);
                    assert forall|stop: spec_fn(char) -> bool, escape: spec_fn(char) -> bool|
                        computes(pred, stop) && computes(should_escape, escape) implies #[trigger] scan_until(
                        input@.skip(pos as int),
                        stop,
                        escape,
                    ).0 == (i + 1 - pos) + scan_until(input@.skip(i + 1), stop, escape).0
                        && scan_until(input@.skip(pos as int), stop, escape).1 == matched@
                        + scan_until(input@.skip(i + 1), stop, escape).1 by {
                        assert(before + scan_until(rest, stop, escape).1 =~= matched@ + scan_until(
                            input@.skip(i + 1),
                            stop,
                            escape,
                        ).1);
                    }
                }
                i += 1;
            } else {
                let e = input[i + 1];
                assert(rest[1] == e);
                assert(rest.skip(2) =~= input@.skip(i + 2));
                let alone = should_escape(e);
                let ghost before = matched@;
                let ghost kept: Seq<char> = if alone {
                    seq![e]
                } else {
                    seq!['\\', e]
                };
                if alone {
                    push_char(&mut matched, e);
                } else {
                    push_char(&mut matched, '\\');
                    push_char(&mut matched, e);
                }
                proof {
                    assert(matched@ =~= before + kept);
                    assert forall|stop: spec_fn(char) -> bool, escape: spec_fn(char) -> bool|
                        computes(pred, stop) && computes(should_escape, escape) implies #[trigger] scan_until(
                        input@.skip(pos as int),
                        stop,
                        escape,
                    ).0 == (i + 2 - pos) + scan_until(input@.skip(i + 2), stop, escape).0
                        && scan_until(input@.skip(pos as int), stop, escape).1 == matched@
                        + scan_until(input@.skip(i + 2), stop, escape).1 by {
                        assert(alone == escape(e));
                        assert(before + scan_until(rest, stop, escape).1 =~= matched@ + scan_until(
                            input@.skip(i + 2),
                            stop,
                            escape,
                        ).1);
                    }
                }
                i += 2;
            }
        } else {
            let b = pred(c);
            if b {
                proof {
                    assert forall|stop: spec_fn(char) -> bool, escape: spec_fn(char) -> bool|
                        computes(pred, stop) && computes(should_escape, escape) implies #[trigger] scan_until(
                        input@.skip(pos as int),
                        stop,
                        escape,
                    ) == ((i - pos) as nat, matched@) by {
                        assert(b == stop(c));
                        assert(matched@ + Seq::<char>::empty() =~= matched@);
                    }
                }
                return Ok((i, matched));
            }
            assert(rest.skip(1) =~= input@.skip(i + 1));
            let ghost before = matched@;
            push_char(&mut matched, c);
            proof {
                assert forall|stop: spec_fn(char) -> bool, escape: spec_fn(char) -> bool|
                    computes(pred, stop) && computes(should_escape, escape) implies #[trigger] scan_until(
                    input@.skip(pos as int),
                    stop,
                    escape,
                ).0 == (i + 1 - pos) + scan_until(input@.skip(i + 1), stop, escape).0
                    && scan_until(input@.skip(pos as int), stop, escape).1 == matched@
                    + scan_until(input@.skip(i + 1), stop, escape).1 by {
                    assert(b == stop(c));
                    assert(before + scan_until(rest, stop, escape).1 =~= matched@ + scan_until(
                        input@.skip(i + 1),
                        stop,
                        escape,
                    ).1);
                }
            }
            i += 1;
        }
    }
}

} // verus!
