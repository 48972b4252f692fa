use vstd::prelude::*;

use crate::token::{token_views, Operator, Token, TokenModel};
use vstd::std_specs::iter::IteratorSpec;

verus! {

/// A decimal digit.
pub open spec fn is_digit_char(c: char) -> bool {
    '0' as u32 <= c as u32 <= '9' as u32
}

/// A character that extends a numeric lexeme: a digit or a dot.
pub open spec fn is_num_char(c: char) -> bool {
    is_digit_char(c) || c == '.'
}

/// An ASCII letter.
pub open spec fn is_ascii_letter(c: char) -> bool {
    ('a' as u32 <= c as u32 <= 'z' as u32) || ('A' as u32 <= c as u32 <= 'Z' as u32)
}

/// Whether a character has the Unicode `Alphabetic` property.  A pure
/// function of the character; it is left abstract here and supplied by
/// `char::is_alphabetic`.  The scan consults it only beyond ASCII.
pub uninterp spec fn unicode_alpha(c: char) -> bool;

/// A character that extends an identifier lexeme: an ASCII letter, or a
/// character beyond ASCII with the Unicode `Alphabetic` property.
pub open spec fn is_ident_char(c: char) -> bool {
    if c as u32 <= 0x7f {
        is_ascii_letter(c)
    } else {
        unicode_alpha(c)
    }
}

/// How many dots a lexeme holds.
pub open spec fn dot_count(s: Seq<char>) -> nat
    decreases s.len(),
{
    if s.len() == 0 {
        0
    } else {
        dot_count(s.drop_last()) + (if s.last() == '.' {
            1nat
        } else {
            0nat
        })
    }
}

/// Whether a lexeme holds at least one digit.
pub open spec fn has_digit(s: Seq<char>) -> bool
    decreases s.len(),
{
    if s.len() == 0 {
        false
    } else {
        has_digit(s.drop_last()) || is_digit_char(s.last())
    }
}

/// A numeric lexeme is well formed when it holds at least one digit and at
/// most one dot; exactly the well-formed lexemes denote a decimal value.
pub open spec fn valid_number(s: Seq<char>) -> bool {
    dot_count(s) <= 1 && has_digit(s)
}

/// The boolean value a keyword lexeme denotes, if the lexeme is one of the
/// two keywords.
pub open spec fn keyword_value(s: Seq<char>) -> Option<bool> {
    if s == seq!['t', 'r', 'u', 'e'] {
        Some(true)
    } else if s == seq!['f', 'a', 'l', 's', 'e'] {
        Some(false)
    } else {
        None
    }
}

/// The tokens the keyword check emits for the current identifier buffer:
/// one boolean token if the buffer is exactly a keyword, none otherwise.
pub open spec fn keyword_emit(ide: Seq<char>) -> Seq<TokenModel> {
    match keyword_value(ide) {
        Some(b) => seq![TokenModel::Boolean(b)],
        None => seq![],
    }
}

/// The identifier buffer after the keyword check: cleared if it was a
/// keyword, untouched otherwise.
pub open spec fn keyword_rest(ide: Seq<char>) -> Seq<char> {
    if keyword_value(ide) is Some {
        seq![]
    } else {
        ide
    }
}

/// One character of lookahead: the character after position `i`, or the
/// nul sentinel once the text is exhausted.
pub open spec fn lookahead(text: Seq<char>, i: int) -> char {
    if i + 1 < text.len() {
        text[i + 1]
    } else {
        '\0'
    }
}

/// The token, if any, that an operator or punctuation character produces,
/// given one character of lookahead.  A bare `!`, `=` or `&`, and any
/// unrecognized character, produce none.
pub open spec fn op_token(c: char, next: char) -> Option<TokenModel> {
    if c == '!' {
        if next == '=' {
            Some(TokenModel::Operator(Operator::NotEqual))
        } else {
            None
        }
    } else if c == '=' {
        if next == '=' {
            Some(TokenModel::Operator(Operator::Equal))
        } else {
            None
        }
    } else if c == '&' {
        if next == '&' {
            Some(TokenModel::Operator(Operator::And))
        } else {
            None
        }
    } else if c == '+' {
        Some(TokenModel::Operator(Operator::Add))
    } else if c == '-' {
        Some(TokenModel::Operator(Operator::Sub))
    } else if c == '*' {
        Some(TokenModel::Operator(Operator::Mul))
    } else if c == '/' {
        Some(TokenModel::Operator(Operator::Div))
    } else if c == '%' {
        Some(TokenModel::Operator(Operator::Mod))
    } else if c == '^' {
        Some(TokenModel::Operator(Operator::Exp))
    } else if c == '(' {
        Some(TokenModel::LeftParen)
    } else if c == ')' {
        Some(TokenModel::RightParen)
    } else if c == ',' {
        Some(TokenModel::Comma)
    } else {
        None
    }
}

/// The token the numeric flush emits: one number if the buffer is
/// non-empty, none otherwise.
pub open spec fn number_emit(num: Seq<char>) -> Seq<TokenModel> {
    if num.len() > 0 {
        seq![TokenModel::Number(num)]
    } else {
        seq![]
    }
}

/// The token the identifier flush emits: one identifier if the buffer is
/// non-empty, none otherwise.
pub open spec fn ident_emit(ide: Seq<char>) -> Seq<TokenModel> {
    if ide.len() > 0 {
        seq![TokenModel::Identifier(ide)]
    } else {
        seq![]
    }
}

/// The tokens the operator match emits: one or none.
pub open spec fn op_emit(c: char, next: char) -> Seq<TokenModel> {
    match op_token(c, next) {
        Some(t) => seq![t],
        None => seq![],
    }
}

/// The scan from position `i` to the end of the text, with the numeric and
/// identifier buffers as given: the tokens that the rest of the text emits,
/// or `None` if a malformed numeric lexeme is flushed.
///
/// Each character is handled in this order: the keyword check on the
/// identifier buffer, numeric accumulation, the numeric flush, identifier
/// accumulation, the identifier flush, and last the operator match with one
/// character of lookahead.  At the end of the text one final flush runs in
/// the same order, so a trailing lexeme is still emitted.
pub open spec fn scan_from(text: Seq<char>, i: int, num: Seq<char>, ide: Seq<char>) -> Option<
    Seq<TokenModel>,
>
    decreases text.len() - i,
{
    if !(0 <= i < text.len()) {
        if num.len() > 0 && !valid_number(num) {
            None
        } else {
            Some(keyword_emit(ide) + number_emit(num) + ident_emit(keyword_rest(ide)))
        }
    } else {
        let c = text[i];
        let kw = keyword_emit(ide);
        let ide1 = keyword_rest(ide);
        if is_num_char(c) {
            match scan_from(text, i + 1, num.push(c), ide1) {
                Some(rest) => Some(kw + rest),
                None => None,
            }
        } else if num.len() > 0 && !valid_number(num) {
            None
        } else if is_ident_char(c) {
            match scan_from(text, i + 1, seq![], ide1.push(c)) {
                Some(rest) => Some(kw + number_emit(num) + rest),
                None => None,
            }
        } else {
            match scan_from(text, i + 1, seq![], seq![]) {
                Some(rest) => Some(
                    kw + number_emit(num) + ident_emit(ide1) + op_emit(c, lookahead(text, i))
                        + rest,
                ),
                None => None,
            }
        }
    }
}

/// The token sequence of a whole text, or `None` if a malformed numeric
/// lexeme is flushed anywhere in it.
pub open spec fn tokens_of(text: Seq<char>) -> Option<Seq<TokenModel>> {
    scan_from(text, 0, seq![], seq![])
}

/// Relies on char::is_alphabetic: whether the character has the Unicode
/// Alphabetic property, a function of the character alone.
#[verifier::external_body]
fn char_is_alphabetic(c: char) -> (r: bool)
    ensures
        r == unicode_alpha(c),
{
    c.is_alphabetic()
}

/// The characters of the string, in order, collected through the
/// character iterator.
pub(crate) fn collect_chars(text: &str) -> (v: Vec<char>)
    ensures
        v@ == text@,
{
    broadcast use vstd::string::group_string_axioms;

    let mut it = text.chars();
    let mut v: Vec<char> = Vec::new();
    proof {
        assert(v@ + it.remaining() =~= text@);
    }
    loop
        invariant_except_break
            it.decrease() is Some,
            v@ + it.remaining() == text@,
        ensures
            v@ == text@,
        decreases it.decrease()->0,
    {
        let ghost before = it.remaining();
        match it.next() {
            Some(c) => {
                v.push(c);
                proof {
                    assert(v@ + it.remaining() =~= text@);
                }
            },
            None => {
                proof {
                    assert(before.len() == 0);
                    assert(v@ =~= text@);
                }
                break ;
            },
        }
    }
    v
}

/// Relies on String's FromIterator: collecting characters yields the
/// string of exactly those characters, in order.
#[verifier::external_body]
fn string_from_chars(buf: &Vec<char>) -> (s: String)
    ensures
        s@ == buf@,
{
    buf.iter().collect()
}

/// Digit test.
fn check_digit_char(c: char) -> (r: bool)
    ensures
        r == is_digit_char(c),
{
    let u = c as u32;
    '0' as u32 <= u && u <= '9' as u32
}

/// Numeric-character test: a digit or a dot.
fn check_num_char(c: char) -> (r: bool)
    ensures
        r == is_num_char(c),
{
    check_digit_char(c) || c == '.'
}

/// Identifier-character test.  ASCII letters are decided here; characters
/// beyond ASCII are referred to `char::is_alphabetic`.
fn check_ident_char(c: char) -> (r: bool)
    ensures
        r == is_ident_char(c),
{
    let u = c as u32;
    if u <= 0x7f {
        ('a' as u32 <= u && u <= 'z' as u32) || ('A' as u32 <= u && u <= 'Z' as u32)
    } else {
        char_is_alphabetic(c)
    }
}

/// Whether the buffer is a well-formed numeric lexeme: at least one digit
/// and at most one dot.
fn check_valid_number(buf: &Vec<char>) -> (r: bool)
    ensures
        r == valid_number(buf@),
{
    let mut dots: usize = 0;
    let mut digit = false;
    let mut j: usize = 0;
    while j < buf.len()
        invariant
            j <= buf@.len(),
            dots <= j,
            dots == dot_count(buf@.take(j as int)),
            digit == has_digit(buf@.take(j as int)),
        decreases buf@.len() - j,
    {
        let c = buf[j];
        proof {
            assert(buf@.take(j as int + 1).drop_last() =~= buf@.take(j as int));
            assert(buf@.take(j as int + 1).last() == buf@[j as int]);
        }
        if c == '.' {
            dots = dots + 1;
        }
        if check_digit_char(c) {
            digit = true;
        }
        j = j + 1;
    }
    proof {
        assert(buf@.take(buf@.len() as int) =~= buf@);
    }
    dots <= 1 && digit
}

/// The boolean a keyword buffer denotes, if the buffer is exactly one of
/// the two keywords.
fn check_keyword(ide: &Vec<char>) -> (r: Option<bool>)
    ensures
        r == keyword_value(ide@),
{
    if ide.len() == 4 && ide[0] == 't' && ide[1] == 'r' && ide[2] == 'u' && ide[3] == 'e' {
        proof {
            assert(ide@ =~= seq!['t', 'r', 'u', 'e']);
        }
        Some(true)
    } else if ide.len() == 5 && ide[0] == 'f' && ide[1] == 'a' && ide[2] == 'l' && ide[3] == 's'
        && ide[4] == 'e' {
        proof {
            assert(ide@ =~= seq!['f', 'a', 'l', 's', 'e']);
        }
        Some(false)
    } else {
        proof {
            if ide@ == seq!['t', 'r', 'u', 'e'] {
                assert(ide@.len() == 4 && ide@[0] == 't' && ide@[1] == 'r' && ide@[2] == 'u'
                    && ide@[3] == 'e');
            }
            if ide@ == seq!['f', 'a', 'l', 's', 'e'] {
                assert(ide@.len() == 5 && ide@[0] == 'f' && ide@[1] == 'a' && ide@[2] == 'l'
                    && ide@[3] == 's' && ide@[4] == 'e');
            }
        }
        None
    }
}

/// The tokens emitted so far, together with the scan of the rest of the
/// text from the current buffers, make up the whole token sequence.
spec fn scan_completes(
    text: Seq<char>,
    i: int,
    num: Seq<char>,
    ide: Seq<char>,
    emitted: Seq<TokenModel>,
) -> bool {
    match scan_from(text, i, num, ide) {
        Some(rest) => tokens_of(text) == Some(emitted + rest),
        None => tokens_of(text) is None,
    }
}

/// Pushing one token onto the output appends its model to the emitted
/// sequence.
proof fn lemma_views_push(ts: Seq<Token>, t: Token)
    ensures
        token_views(ts.push(t)) == token_views(ts).push(t@),
{
    assert(token_views(ts.push(t)) =~= token_views(ts).push(t@));
}

/// At the start of the scan nothing is emitted and both buffers are empty.
proof fn lemma_scan_start(text: Seq<char>)
    ensures
        scan_completes(text, 0, seq![], seq![], seq![]),
{
    match scan_from(text, 0, seq![], seq![]) {
        Some(rest) => {
            assert(seq![] + rest =~= rest);
        },
        None => {},
    }
}

/// A numeric character: the keyword check runs, then the character joins
/// the numeric buffer.
proof fn lemma_step_num(text: Seq<char>, i: int, num: Seq<char>, ide: Seq<char>, emitted: Seq<TokenModel>)
    requires
        scan_completes(text, i, num, ide, emitted),
        0 <= i < text.len(),
        is_num_char(text[i]),
    ensures
        scan_completes(
            text,
            i + 1,
            num.push(text[i]),
            keyword_rest(ide),
            emitted + keyword_emit(ide),
        ),
{
    match scan_from(text, i + 1, num.push(text[i]), keyword_rest(ide)) {
        Some(rest) => {
            assert((emitted + keyword_emit(ide)) + rest =~= emitted + (keyword_emit(ide) + rest));
        },
        None => {},
    }
}

/// A non-numeric character over a malformed numeric buffer: the flush
/// fails and the whole scan is fatal.
proof fn lemma_step_fatal(text: Seq<char>, i: int, num: Seq<char>, ide: Seq<char>, emitted: Seq<TokenModel>)
    requires
        scan_completes(text, i, num, ide, emitted),
        0 <= i < text.len(),
        !is_num_char(text[i]),
        num.len() > 0,
        !valid_number(num),
    ensures
        tokens_of(text) is None,
{
}

/// An identifier character: the keyword check runs, the numeric buffer is
/// flushed, and the character joins the identifier buffer.
proof fn lemma_step_ident(text: Seq<char>, i: int, num: Seq<char>, ide: Seq<char>, emitted: Seq<TokenModel>)
    requires
        scan_completes(text, i, num, ide, emitted),
        0 <= i < text.len(),
        !is_num_char(text[i]),
        num.len() == 0 || valid_number(num),
        is_ident_char(text[i]),
    ensures
        scan_completes(
            text,
            i + 1,
            seq![],
            keyword_rest(ide).push(text[i]),
            emitted + keyword_emit(ide) + number_emit(num),
        ),
{
    match scan_from(text, i + 1, seq![], keyword_rest(ide).push(text[i])) {
        Some(rest) => {
            assert((emitted + keyword_emit(ide) + number_emit(num)) + rest =~= emitted + (
            keyword_emit(ide) + number_emit(num) + rest));
        },
        None => {},
    }
}

/// Any other character: the keyword check runs, both buffers are flushed,
/// and the operator match decides with one character of lookahead.
proof fn lemma_step_other(text: Seq<char>, i: int, num: Seq<char>, ide: Seq<char>, emitted: Seq<TokenModel>)
    requires
        scan_completes(text, i, num, ide, emitted),
        0 <= i < text.len(),
        !is_num_char(text[i]),
        num.len() == 0 || valid_number(num),
        !is_ident_char(text[i]),
    ensures
        scan_completes(
            text,
            i + 1,
            seq![],
            seq![],
            emitted + keyword_emit(ide) + number_emit(num) + ident_emit(keyword_rest(ide))
                + op_emit(text[i], lookahead(text, i)),
        ),
{
    match scan_from(text, i + 1, seq![], seq![]) {
        Some(rest) => {
            assert((emitted + keyword_emit(ide) + number_emit(num) + ident_emit(keyword_rest(ide))
                + op_emit(text[i], lookahead(text, i))) + rest =~= emitted + (keyword_emit(ide)
                + number_emit(num) + ident_emit(keyword_rest(ide)) + op_emit(
                text[i],
                lookahead(text, i),
            ) + rest));
        },
        None => {},
    }
}

/// The end of the text: one final flush in the same order as the
/// per-character steps.
proof fn lemma_scan_end(text: Seq<char>, num: Seq<char>, ide: Seq<char>, emitted: Seq<TokenModel>)
    requires
        scan_completes(text, text.len() as int, num, ide, emitted),
    ensures
        num.len() > 0 && !valid_number(num) ==> tokens_of(text) is None,
        !(num.len() > 0 && !valid_number(num)) ==> tokens_of(text) == Some(
            emitted + keyword_emit(ide) + number_emit(num) + ident_emit(keyword_rest(ide)),
        ),
{
    if !(num.len() > 0 && !valid_number(num)) {
        assert((emitted + keyword_emit(ide) + number_emit(num) + ident_emit(keyword_rest(ide)))
            =~= emitted + (keyword_emit(ide) + number_emit(num) + ident_emit(keyword_rest(ide))));
    }
}

/// The executable operator match: the token, if any, for this character
/// and one character of lookahead.
fn check_op(c: char, next: char) -> (r: Option<Token>)
    ensures
        match r {
            Some(t) => op_token(c, next) == Some(t@),
            None => op_token(c, next) is None,
        },
{
    match c {
        '!' => if next == '=' {
            Some(Token::Operator(Operator::NotEqual))
        } else {
            None
        },
        '=' => if next == '=' {
            Some(Token::Operator(Operator::Equal))
        } else {
            None
        },
        '&' => if next == '&' {
            Some(Token::Operator(Operator::And))
        } else {
            None
        },
        '+' => Some(Token::Operator(Operator::Add)),
        '-' => Some(Token::Operator(Operator::Sub)),
        '*' => Some(Token::Operator(Operator::Mul)),
        '/' => Some(Token::Operator(Operator::Div)),
        '%' => Some(Token::Operator(Operator::Mod)),
        '^' => Some(Token::Operator(Operator::Exp)),
        '(' => Some(Token::LeftParen),
        ')' => Some(Token::RightParen),
        ',' => Some(Token::Comma),
        _ => None,
    }
}

/// The single eager pass: scans the whole character sequence into its
/// token sequence, or `None` — with no partial output — if a malformed
/// numeric lexeme is flushed.
pub fn scan_chars(text: &Vec<char>) -> (r: Option<Vec<Token>>)
    ensures
        match r {
            Some(toks) => tokens_of(text@) == Some(token_views(toks@)),
            None => tokens_of(text@) is None,
        },
{
    let mut out: Vec<Token> = Vec::new();
    let mut num: Vec<char> = Vec::new();
    let mut ide: Vec<char> = Vec::new();
    let n = text.len();
    let mut i: usize = 0;
    proof {
        lemma_scan_start(text@);
        assert(token_views(out@) =~= Seq::<TokenModel>::empty());
        assert(num@ =~= Seq::<char>::empty());
        assert(ide@ =~= Seq::<char>::empty());
    }
    while i < n
        invariant
            i <= n,
            n == text@.len(),
            scan_completes(text@, i as int, num@, ide@, token_views(out@)),
        decreases n - i,
    {
        let c = text[i];
        let ghost num0 = num@;
        let ghost ide0 = ide@;
        let ghost emitted0 = token_views(out@);
        match check_keyword(&ide) {
            Some(b) => {
                proof {
                    lemma_views_push(out@, Token::Boolean(b));
                }
                out.push(Token::Boolean(b));
                ide.clear();
            },
            None => {},
        }
        proof {
            assert(token_views(out@) =~= emitted0 + keyword_emit(ide0));
            assert(ide@ =~= keyword_rest(ide0));
        }
        let ghost emitted1 = emitted0 + keyword_emit(ide0);
        if check_num_char(c) {
            num.push(c);
            proof {
                lemma_step_num(text@, i as int, num0, ide0, emitted0);
            }
        } else {
            if num.len() > 0 {
                if !check_valid_number(&num) {
                    proof {
                        lemma_step_fatal(text@, i as int, num0, ide0, emitted0);
                    }
                    return None;
                }
                let s = string_from_chars(&num);
                proof {
                    lemma_views_push(out@, Token::Number(s));
                }
                out.push(Token::Number(s));
                num.clear();
            }
            proof {
                assert(token_views(out@) =~= emitted1 + number_emit(num0));
                assert(num@ =~= Seq::<char>::empty());
            }
            let ghost emitted2 = emitted1 + number_emit(num0);
            if check_ident_char(c) {
                ide.push(c);
                proof {
                    lemma_step_ident(text@, i as int, num0, ide0, emitted0);
                    assert(ide@ == keyword_rest(ide0).push(c));
                }
            } else {
                if ide.len() > 0 {
                    let s = string_from_chars(&ide);
                    proof {
                        lemma_views_push(out@, Token::Identifier(s));
                    }
                    out.push(Token::Identifier(s));
                    ide.clear();
                }
                proof {
                    assert(token_views(out@) =~= emitted2 + ident_emit(keyword_rest(ide0)));
                    assert(ide@ =~= Seq::<char>::empty());
                }
                let next: char = if i + 1 < n {
                    text[i + 1]
                } else {
                    '\0'
                };
                proof {
                    assert(next == lookahead(text@, i as int));
                }
                match check_op(c, next) {
                    Some(t) => {
                        proof {
                            lemma_views_push(out@, t);
                        }
                        out.push(t);
                    },
                    None => {},
                }
                proof {
                    assert(token_views(out@) =~= emitted2 + ident_emit(keyword_rest(ide0))
                        + op_emit(c, next));
                    lemma_step_other(text@, i as int, num0, ide0, emitted0);
                }
            }
        }
        i = i + 1;
    }
    let ghost num0 = num@;
    let ghost ide0 = ide@;
    let ghost emitted0 = token_views(out@);
    proof {
        lemma_scan_end(text@, num0, ide0, emitted0);
    }
    match check_keyword(&ide) {
        Some(b) => {
            proof {
                lemma_views_push(out@, Token::Boolean(b));
            }
            out.push(Token::Boolean(b));
            ide.clear();
        },
        None => {},
    }
    proof {
        assert(token_views(out@) =~= emitted0 + keyword_emit(ide0));
        assert(ide@ =~= keyword_rest(ide0));
    }
    if num.len() > 0 {
        if !check_valid_number(&num) {
            return None;
        }
        let s = string_from_chars(&num);
        proof {
            lemma_views_push(out@, Token::Number(s));
        }
        out.push(Token::Number(s));
        num.clear();
    }
    proof {
        assert(token_views(out@) =~= emitted0 + keyword_emit(ide0) + number_emit(num0));
    }
    if ide.len() > 0 {
        let s = string_from_chars(&ide);
        proof {
            lemma_views_push(out@, Token::Identifier(s));
        }
        out.push(Token::Identifier(s));
    }
    proof {
        assert(token_views(out@) =~= emitted0 + keyword_emit(ide0) + number_emit(num0)
            + ident_emit(keyword_rest(ide0)));
    }
    Some(out)
}

} // verus!
