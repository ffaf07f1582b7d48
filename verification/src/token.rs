//! Tokens of one LitScript source line, as handed over by the external
//! lexer. The compiler only consumes them.

use vstd::prelude::*;

verus! {

/// The bracket kind of a token group. Only parenthesized groups are
/// accepted by the encoder.
#[derive(Debug, Clone, Copy, PartialEq, Eq, Structural)]
pub enum GroupDelimiter {
    Parenthesis,
    Brace,
    Bracket,
    Implicit,
}

/// One lexed token: an identifier, a literal's text (quotes included for
/// string literals), a punctuation character, or a delimited group of
/// nested tokens.
#[derive(Debug)]
pub enum Token {
    Identifier(String),
    Literal(String),
    Punctuation(char),
    Group(Vec<Token>, GroupDelimiter),
}

/// The mathematical model of a token.
pub enum SpecToken {
    Identifier(Seq<char>),
    Literal(Seq<char>),
    Punctuation(char),
    Group(Seq<SpecToken>, GroupDelimiter),
}

impl Token {
    /// The model of this token.
    pub open spec fn model(self) -> SpecToken
        decreases self,
    {
        match self {
            Token::Identifier(s) => SpecToken::Identifier(s@),
            Token::Literal(s) => SpecToken::Literal(s@),
            Token::Punctuation(c) => SpecToken::Punctuation(c),
            Token::Group(ts, d) => SpecToken::Group(Self::model_seq(ts@), d),
        }
    }

    /// The models of a sequence of tokens, element by element.
    pub open spec fn model_seq(s: Seq<Token>) -> Seq<SpecToken>
        decreases s,
    {
        if s.len() == 0 {
            Seq::empty()
        } else {
            seq![s[0].model()] + Self::model_seq(s.drop_first())
        }
    }

    /// `model_seq` maps the sequence pointwise.
    pub proof fn lemma_model_seq(s: Seq<Token>)
        ensures
            Self::model_seq(s).len() == s.len(),
            forall|i: int| 0 <= i < s.len() ==> Self::model_seq(s)[i] == #[trigger] s[i].model(),
        decreases s,
    {
        if s.len() > 0 {
            Self::lemma_model_seq(s.drop_first());
            assert forall|i: int| 0 <= i < s.len() implies Self::model_seq(s)[i]
                == #[trigger] s[i].model() by {
                if i > 0 {
                    assert(s.drop_first()[i - 1] == s[i]);
                }
            }
        }
    }
}

impl View for Token {
    type V = SpecToken;

    open spec fn view(&self) -> SpecToken {
        self.model()
    }
}

} // verus!
