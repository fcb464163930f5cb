//! Tokens as the tokenizer produces them: a token is a run of adjacent parts, each part
//! unquoted, single-quoted or double-quoted text.
use vstd::prelude::*;
use vstd::string::*;

verus! {

/// One piece of a token, with quotes removed and escapes resolved.
#[derive(Debug)]
pub enum TokenPart {
    Unquoted(String),
    SingleQuoted(String),
    DoubleQuoted(String),
}

/// A word of the command line: the parts written next to each other, with no whitespace
/// between them.
#[derive(Debug)]
pub struct Token {
    pub parts: Vec<TokenPart>,
}

/// The mathematical value of a `TokenPart`.
pub enum PartView {
    Unquoted(Seq<char>),
    SingleQuoted(Seq<char>),
    DoubleQuoted(Seq<char>),
}

impl PartView {
    /// The text that the part stands for, whatever its quoting.
    pub open spec fn text(self) -> Seq<char> {
        match self {
            PartView::Unquoted(s) => s,
            PartView::SingleQuoted(s) => s,
            PartView::DoubleQuoted(s) => s,
        }
    }
}

impl View for TokenPart {
    type V = PartView;

    open spec fn view(&self) -> PartView {
        match self {
            TokenPart::Unquoted(s) => PartView::Unquoted(s@),
            TokenPart::SingleQuoted(s) => PartView::SingleQuoted(s@),
            TokenPart::DoubleQuoted(s) => PartView::DoubleQuoted(s@),
        }
    }
}

impl View for Token {
    type V = Seq<PartView>;

    open spec fn view(&self) -> Seq<PartView> {
        self.parts@.map_values(|p: TokenPart| p@)
    }
}

/// The text of a token: the texts of its parts, one after the other.
pub open spec fn token_text(parts: Seq<PartView>) -> Seq<char>
    decreases parts.len(),
{
    if parts.len() == 0 {
        Seq::empty()
    } else {
        token_text(parts.drop_last()) + parts.last().text()
    }
}

/// The views of a list of tokens.
pub open spec fn tokens_view(tokens: Seq<Token>) -> Seq<Seq<PartView>> {
    tokens.map_values(|t: Token| t@)
}

impl TokenPart {
    /// The text of this part, whatever its quoting.
    pub fn content(&self) -> (r: &str)
        ensures
            r@ == self@.text(),
    {
        match self {
            TokenPart::Unquoted(s) => s.as_str(),
            TokenPart::SingleQuoted(s) => s.as_str(),
            TokenPart::DoubleQuoted(s) => s.as_str(),
        }
    }
}

impl Token {
    /// The text of the token: its parts' texts concatenated, quotes gone.
    pub fn to_string(&self) -> (r: String)
        ensures
            r@ == token_text(self@),
    {
        let mut result = String::new();
        let mut i: usize = 0;
        while i < self.parts.len()
            invariant
                i <= self.parts.len(),
                result@ == token_text(self@.take(i as int)),
            decreases self.parts.len() - i,
        {
            let ghost before = result@;
            result.append(self.parts[i].content());
            assert(self@.take(i + 1).drop_last() =~= self@.take(i as int));
            i += 1;
        }
        assert(self@.take(self.parts.len() as int) =~= self@);
        result
    }
}

} // verus!
