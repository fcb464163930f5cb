//! The `history` builtin: what its arguments ask for, the listing it writes, and the text that
//! saving the history writes to a file. Only entries past the last save, load or write are
//! appended by `history -a`, so nothing is appended twice.
use vstd::prelude::*;
use crate::builtin::Output;
use crate::command::{ShellCommand, strings_view};
use crate::text::{decimal, pad_left, push_char, push_decimal, push_padded, str_equals};
use vstd::string::*;

verus! {

/// What `history` is asked to do.
#[derive(Debug)]
pub enum HistoryAction {
    /// `history -r <file>`: add the lines of the file to the history.
    Read(String),
    /// `history -w <file>`: write the whole history to the file.
    Write(String),
    /// `history -a <file>`: append the entries not yet saved to the file.
    Append(String),
    /// `history [n]`: list the last `n` entries, or all of them.
    List,
    /// A flag without its file: write this usage line.
    Usage(String),
}

/// The mathematical value of a `HistoryAction`.
pub enum HistoryActionView {
    Read(Seq<char>),
    Write(Seq<char>),
    Append(Seq<char>),
    List,
    Usage(Seq<char>),
}

impl View for HistoryAction {
    type V = HistoryActionView;

    open spec fn view(&self) -> HistoryActionView {
        match self {
            HistoryAction::Read(p) => HistoryActionView::Read(p@),
            HistoryAction::Write(p) => HistoryActionView::Write(p@),
            HistoryAction::Append(p) => HistoryActionView::Append(p@),
            HistoryAction::List => HistoryActionView::List,
            HistoryAction::Usage(m) => HistoryActionView::Usage(m@),
        }
    }
}

/// What `history` does with the arguments `args`.
pub open spec fn history_action_spec(args: Seq<Seq<char>>) -> HistoryActionView {
    if args.len() > 0 && args[0] == "-r"@ {
        if args.len() > 1 {
            HistoryActionView::Read(args[1])
        } else {
            HistoryActionView::Usage("usage: history -r <file>"@)
        }
    } else if args.len() > 0 && args[0] == "-w"@ {
        if args.len() > 1 {
            HistoryActionView::Write(args[1])
        } else {
            HistoryActionView::Usage("usage: history -w <file>"@)
        }
    } else if args.len() > 0 && args[0] == "-a"@ {
        if args.len() > 1 {
            HistoryActionView::Append(args[1])
        } else {
            HistoryActionView::Usage("usage: history -w <file>"@)
        }
    } else {
        HistoryActionView::List
    }
}

/// What `history` is asked to do (see `history_action_spec`).
pub fn history_action(command: &ShellCommand) -> (r: HistoryAction)
    ensures
        r@ == history_action_spec(strings_view(command.args@)),
{
    let ghost args = strings_view(command.args@);
    let n = command.args.len();
    if n == 0 {
        return HistoryAction::List;
    }
    let flag = command.args[0].as_str();
    assert(args[0] == flag@);
    if n > 1 {
        assert(args[1] == command.args@[1]@);
    }
    if str_equals(flag, "-r") {
        if n > 1 {
            HistoryAction::Read(command.args[1].clone())
        } else {
            HistoryAction::Usage(String::from_str("usage: history -r <file>"))
        }
    } else if str_equals(flag, "-w") {
        if n > 1 {
            HistoryAction::Write(command.args[1].clone())
        } else {
            HistoryAction::Usage(String::from_str("usage: history -w <file>"))
        }
    } else if str_equals(flag, "-a") {
        if n > 1 {
            HistoryAction::Append(command.args[1].clone())
        } else {
            HistoryAction::Usage(String::from_str("usage: history -w <file>"))
        }
    } else {
        HistoryAction::List
    }
}

/// Whether `c` is an ASCII digit.
pub open spec fn is_digit(c: char) -> bool {
    '0' <= c <= '9'
}

/// The value of the ASCII digit `c`.
pub open spec fn digit_value(c: char) -> nat {
    ((c as u32) - 48) as nat
}

/// The value of the decimal numeral `s` (all digits).
pub open spec fn numeral_value(s: Seq<char>) -> nat
    decreases s.len(),
{
    if s.len() == 0 {
        0
    } else {
        numeral_value(s.drop_last()) * 10 + digit_value(s.last())
    }
}

/// Whether every character of `d` is an ASCII digit.
pub open spec fn all_digits(d: Seq<char>) -> bool {
    forall|i: int| 0 <= i < d.len() ==> is_digit(#[trigger] d[i])
}

/// What parsing `s` as a `usize` gives, as `str::parse::<usize>` does it: an optional `+`,
/// then one or more ASCII digits, whose value must fit in a `usize`.
pub open spec fn parse_usize_spec(s: Seq<char>) -> Option<nat> {
    let d = if s.len() > 0 && s[0] == '+' {
        s.skip(1)
    } else {
        s
    };
    if d.len() > 0 && all_digits(d) && numeral_value(d) <= usize::MAX {
        Some(numeral_value(d))
    } else {
        None
    }
}

proof fn lemma_numeral_grows(d: Seq<char>, j: int)
    requires
        0 <= j <= d.len(),
    ensures
        numeral_value(d) >= numeral_value(d.take(j)),
    decreases d.len() - j,
{
    if j < d.len() {
        lemma_numeral_grows(d, j + 1);
        assert(d.take(j + 1).drop_last() =~= d.take(j));
    } else {
        assert(d.take(j) =~= d);
    }
}

/// Parses `s` as a `usize` (see `parse_usize_spec`).
pub fn parse_usize(s: &str) -> (r: Option<usize>)
    ensures
        match parse_usize_spec(s@) {
            Some(v) => r == Some(v as usize),
            None => r is None,
        },
{
    let chars = crate::text::chars_of(s);
    let n = chars.len();
    let start: usize = if n > 0 && chars[0] == '+' {
        1
    } else {
        0
    };
    let ghost d = if s@.len() > 0 && s@[0] == '+' {
        s@.skip(1)
    } else {
        s@
    };
    assert(d =~= chars@.skip(start as int));
    if start == n {
        return None;
    }
    let mut value: usize = 0;
    let mut i = start;
    while i < n
        invariant
            start <= i <= n,
            start < n,
            n == chars@.len(),
            chars@ == s@,
            d == (if s@.len() > 0 && s@[0] == '+' {
                s@.skip(1)
            } else {
                s@
            }),
            d == chars@.skip(start as int),
            value == numeral_value(d.take(i - start)),
            forall|k: int| 0 <= k < i - start ==> is_digit(#[trigger] d[k]),
        decreases n - i,
    {
        let c = chars[i];
        assert(d[i - start] == c);
        if !('0' <= c && c <= '9') {
            assert(!is_digit(d[i - start]));
            assert(!all_digits(d));
            assert(parse_usize_spec(s@) is None);
            return None;
        }
        let digit = (c as u32 - 48) as usize;
        assert(d.take(i + 1 - start).drop_last() =~= d.take(i - start));
        assert(d.take(i + 1 - start).last() == c);
        assert(numeral_value(d.take(i + 1 - start)) == value * 10 + digit);
        let next = match value.checked_mul(10) {
            Some(v) => match v.checked_add(digit) {
                Some(w) => w,
                None => {
                    proof {
                        lemma_numeral_grows(d, i + 1 - start);
                    }
                    return None;
                },
            },
            None => {
                proof {
                    lemma_numeral_grows(d, i + 1 - start);
                }
                return None;
            },
        };
        value = next;
        i += 1;
    }
    assert(d.take(n - start) =~= d);
    Some(value)
}

/// How many entries `history` lists: the number its first argument gives, or all of them.
pub open spec fn requested_entries_spec(args: Seq<Seq<char>>, len: nat) -> nat {
    if args.len() > 0 && parse_usize_spec(args[0]) is Some {
        parse_usize_spec(args[0]).unwrap()
    } else {
        len
    }
}

/// How many entries `history` lists, out of `len` (see `requested_entries_spec`).
pub fn requested_entries(command: &ShellCommand, len: usize) -> (r: usize)
    ensures
        r == requested_entries_spec(strings_view(command.args@), len as nat),
{
    if command.args.len() > 0 {
        assert(strings_view(command.args@)[0] == command.args@[0]@);
        match parse_usize(command.args[0].as_str()) {
            Some(v) => v,
            None => len,
        }
    } else {
        len
    }
}

/// The listing lines of `entries[from..to]`: each entry's number (counted from 1)
/// right-aligned in 5 columns, two spaces, the entry, a newline.
pub open spec fn listing(entries: Seq<Seq<char>>, from: int, to: int) -> Seq<char>
    decreases to - from,
{
    if to <= from {
        Seq::empty()
    } else {
        listing(entries, from, to - 1) + pad_left(decimal(to as nat), 5) + seq![' ', ' ']
            + entries[to - 1] + seq!['\n']
    }
}

/// `history [n]`: writes the last `count` entries, numbered.
pub fn list_history(entries: &Vec<String>, count: usize, output: &mut Output)
    requires
        count <= entries@.len(),
    ensures
        final(output).stdout@ == old(output).stdout@ + listing(
            strings_view(entries@),
            entries@.len() - count,
            entries@.len() as int,
        ),
        final(output).stderr@ == old(output).stderr@,
{
    let ghost es = strings_view(entries@);
    let offset = entries.len() - count;
    let mut i = offset;
    while i < entries.len()
        invariant
            offset <= i <= entries@.len(),
            es == strings_view(entries@),
            output.stdout@ == old(output).stdout@ + listing(es, offset as int, i as int),
            output.stderr@ == old(output).stderr@,
        decreases entries.len() - i,
    {
        let ghost before = output.stdout@;
        let mut number = String::new();
        push_decimal(&mut number, (i + 1) as u64);
        let digits = crate::text::chars_of(number.as_str());
        push_padded(&mut output.stdout, &digits, 5);
        push_char(&mut output.stdout, ' ');
        push_char(&mut output.stdout, ' ');
        output.stdout.append(entries[i].as_str());
        push_char(&mut output.stdout, '\n');
        assert(es[i as int] == entries@[i as int]@);
        assert(output.stdout@ =~= before + pad_left(decimal((i + 1) as nat), 5) + seq![' ', ' ']
            + es[i as int] + seq!['\n']);
        i += 1;
    }
}

/// The file text for `entries[from..]`: each entry followed by a newline.
pub open spec fn history_text_spec(entries: Seq<Seq<char>>, from: int) -> Seq<char>
    decreases entries.len(),
{
    if entries.len() <= from || entries.len() == 0 {
        Seq::empty()
    } else {
        history_text_spec(entries.drop_last(), from) + entries.last() + seq!['\n']
    }
}

/// The file text for the entries from position `from` on (see `history_text_spec`): all of
/// them for `history -w`, those not yet saved for `history -a`.
pub fn history_text(entries: &Vec<String>, from: usize) -> (r: String)
    ensures
        r@ == history_text_spec(strings_view(entries@), from as int),
{
    let ghost es = strings_view(entries@);
    let mut text = String::new();
    let mut i = from;
    if i > entries.len() {
        i = entries.len();
    }
    proof {
        lemma_history_text_empty(es.take(i as int), from as int);
    }
    while i < entries.len()
        invariant
            from <= i <= entries@.len() || (i == entries@.len() && from > i),
            es == strings_view(entries@),
            text@ == history_text_spec(es.take(i as int), from as int),
        decreases entries.len() - i,
    {
        text.append(entries[i].as_str());
        push_char(&mut text, '\n');
        assert(es.take(i + 1).drop_last() =~= es.take(i as int));
        assert(es.take(i + 1).last() == entries@[i as int]@);
        i += 1;
    }
    assert(es.take(entries.len() as int) =~= es);
    text
}

proof fn lemma_history_text_empty(entries: Seq<Seq<char>>, from: int)
    requires
        entries.len() <= from,
    ensures
        history_text_spec(entries, from) == Seq::<char>::empty(),
{
}

/// Saving in steps loses nothing and writes nothing twice: the text of the entries from `b`
/// on, once more entries have been added, is the text of those that were there from `b` on,
/// then the text of the added ones.
pub proof fn lemma_append_in_steps(old_entries: Seq<Seq<char>>, added: Seq<Seq<char>>, b: int)
    requires
        0 <= b <= old_entries.len(),
    ensures
        history_text_spec(old_entries + added, b) == history_text_spec(old_entries, b)
            + history_text_spec(old_entries + added, old_entries.len() as int),
    decreases added.len(),
{
    let all = old_entries + added;
    if added.len() == 0 {
        assert(all =~= old_entries);
        lemma_history_text_empty(old_entries, old_entries.len() as int);
        assert(history_text_spec(old_entries, b) + Seq::<char>::empty() =~= history_text_spec(
            old_entries,
            b,
        ));
    } else {
        let fewer = added.drop_last();
        lemma_append_in_steps(old_entries, fewer, b);
        assert(all.drop_last() =~= old_entries + fewer);
        assert(history_text_spec(all, b) =~= history_text_spec(old_entries, b)
            + history_text_spec(all, old_entries.len() as int));
    }
}

/// How many history entries are already in the history file: those from before the last
/// `history -r`, `-w` or `-a`. `history -a` appends only the entries after them.
pub struct HistoryBaseline {
    saved: usize,
}

impl HistoryBaseline {
    /// The number of entries already saved.
    pub closed spec fn count(&self) -> nat {
        self.saved as nat
    }

    /// Nothing saved yet.
    pub fn new() -> (b: HistoryBaseline)
        ensures
            b.count() == 0,
    {
        HistoryBaseline { saved: 0 }
    }

    /// The number of entries already saved.
    pub fn saved(&self) -> (n: usize)
        ensures
            n == self.count(),
    {
        self.saved
    }

    /// The text that `history -a` appends: the entries not saved yet.
    pub fn unsaved_text(&self, entries: &Vec<String>) -> (r: String)
        ensures
            r@ == history_text_spec(strings_view(entries@), self.count() as int),
    {
        history_text(entries, self.saved)
    }

    /// Records that all `len` entries of the history are now saved, as `history -r` (of a file
    /// that exists), `-w` and `-a` do. A history never shrinks below what was saved: for a
    /// smaller `len` the baseline stays and the result is `false`.
    pub fn mark_saved(&mut self, len: usize) -> (ok: bool)
        ensures
            ok == (old(self).count() <= len),
            ok ==> final(self).count() == len,
            !ok ==> final(self).count() == old(self).count(),
    {
        if len < self.saved {
            return false;
        }
        self.saved = self.saved + (len - self.saved);
        true
    }
}

} // verus!
