use vstd::prelude::*;

use crate::scan::{collect_chars, scan_chars, tokens_of};
use crate::token::{clone_token, token_views, Token, TokenModel};

verus! {

/// What a read returns when the not-yet-consumed sequence is as given: its
/// first token, or the `EndOfStream` sentinel once it is exhausted.
pub open spec fn head_token(remaining: Seq<TokenModel>) -> TokenModel {
    if remaining.len() == 0 {
        TokenModel::EndOfStream
    } else {
        remaining[0]
    }
}

/// A tokenizer: the complete token sequence of one text, scanned eagerly
/// at construction, read through a unidirectional cursor.
///
/// The view of a `Lexer` is the sequence of not-yet-consumed token models,
/// in the left-to-right order of the recognized lexemes.  The sequence
/// itself never changes after construction; only the cursor advances.
pub struct Lexer {
    tokens: Vec<Token>,
    pos: usize,
}

impl View for Lexer {
    type V = Seq<TokenModel>;

    closed spec fn view(&self) -> Seq<TokenModel> {
        token_views(self.tokens@).skip(self.pos as int)
    }
}

impl Lexer {
    /// The cursor never runs past the end of the sequence.
    #[verifier::type_invariant]
    spec fn wf(self) -> bool {
        self.pos <= self.tokens.len()
    }

    /// Scans the whole text in one eager pass.  All or nothing: if a
    /// malformed numeric lexeme (no digit, or more than one dot) is
    /// flushed anywhere, no lexer is produced and no partial sequence is
    /// observable; otherwise the lexer holds exactly the token sequence of
    /// the text.
    pub fn new(text: String) -> (r: Option<Lexer>)
        ensures
            match r {
                Some(l) => tokens_of(text@) == Some(l@),
                None => tokens_of(text@) is None,
            },
    {
        let chars = collect_chars(text.as_str());
        match scan_chars(&chars) {
            Some(toks) => {
                let l = Lexer { tokens: toks, pos: 0 };
                proof {
                    assert(l@ =~= token_views(l.tokens@));
                }
                Some(l)
            },
            None => None,
        }
    }

    /// The next not-yet-consumed token, without advancing the cursor;
    /// `EndOfStream` once the sequence is exhausted, on this and every
    /// further call.
    pub fn peek(&self) -> (t: Token)
        ensures
            t@ == head_token(self@),
    {
        proof {
            use_type_invariant(&*self);
        }
        if self.pos < self.tokens.len() {
            let t = clone_token(&self.tokens[self.pos]);
            proof {
                assert(self@[0] == token_views(self.tokens@)[self.pos as int]);
            }
            t
        } else {
            Token::EndOfStream
        }
    }

    /// The next not-yet-consumed token, advancing the cursor one position;
    /// `EndOfStream` once the sequence is exhausted, on this and every
    /// further call, the cursor staying put.
    pub fn next_token(&mut self) -> (t: Token)
        ensures
            t@ == head_token(old(self)@),
            final(self)@ == if old(self)@.len() == 0 {
                old(self)@
            } else {
                old(self)@.skip(1)
            },
    {
        proof {
            use_type_invariant(&*self);
        }
        if self.pos < self.tokens.len() {
            let t = clone_token(&self.tokens[self.pos]);
            proof {
                assert(old(self)@[0] == token_views(self.tokens@)[self.pos as int]);
            }
            self.pos = self.pos + 1;
            proof {
                assert(self@ =~= old(self)@.skip(1));
            }
            t
        } else {
            Token::EndOfStream
        }
    }
}

} // verus!
