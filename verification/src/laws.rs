use vstd::prelude::*;

use crate::scan::{
    ident_emit, is_num_char, keyword_emit, keyword_rest, keyword_value, number_emit, scan_from,
    tokens_of, valid_number,
};
use crate::token::TokenModel;

verus! {

/// The scan of a text made only of numeric characters, from position `i`
/// with the characters before `i` in the numeric buffer: the buffer keeps
/// growing to the whole text, and the final flush emits it as one number,
/// or fails if it is malformed.
proof fn lemma_scan_all_num(text: Seq<char>, i: int)
    requires
        0 <= i <= text.len(),
        text.len() > 0,
        forall|j: int| 0 <= j < text.len() ==> is_num_char(#[trigger] text[j]),
    ensures
        scan_from(text, i, text.take(i), seq![]) == if valid_number(text) {
            Some(seq![TokenModel::Number(text)])
        } else {
            None::<Seq<TokenModel>>
        },
    decreases text.len() - i,
{
    if i == text.len() {
        assert(text.take(i) =~= text);
        if valid_number(text) {
            assert(keyword_emit(seq![]) + number_emit(text) + ident_emit(keyword_rest(seq![]))
                =~= seq![TokenModel::Number(text)]);
        }
    } else {
        lemma_scan_all_num(text, i + 1);
        assert(text.take(i).push(text[i]) =~= text.take(i + 1));
        if valid_number(text) {
            assert(seq!['t', 'r', 'u', 'e'].len() == 4);
            assert(seq!['f', 'a', 'l', 's', 'e'].len() == 5);
            assert(keyword_value(seq![]) is None);
            assert(keyword_emit(seq![]) =~= Seq::<TokenModel>::empty());
            assert(keyword_emit(seq![]) + seq![TokenModel::Number(text)] =~= seq![
                TokenModel::Number(text),
            ]);
        }
    }
}

/// Law: a text that is one well-formed numeric lexeme — only digits and
/// dots, with at least one digit and at most one dot — tokenizes to
/// exactly one number carrying that lexeme, and nothing else.  By the
/// contracts of `peek` and `next_token`, every read after that one token
/// returns `EndOfStream`.
pub proof fn lemma_single_number_text(text: Seq<char>)
    requires
        text.len() > 0,
        forall|j: int| 0 <= j < text.len() ==> is_num_char(#[trigger] text[j]),
        valid_number(text),
    ensures
        tokens_of(text) == Some(seq![TokenModel::Number(text)]),
{
    lemma_scan_all_num(text, 0);
    assert(text.take(0) =~= seq![]);
}

/// Law: a text that is one malformed numeric lexeme — only digits and
/// dots, with no digit or with more than one dot — aborts tokenization
/// fatally: there is no token sequence at all, so construction yields no
/// lexer and no partial output is observable.
pub proof fn lemma_malformed_number_fatal(text: Seq<char>)
    requires
        text.len() > 0,
        forall|j: int| 0 <= j < text.len() ==> is_num_char(#[trigger] text[j]),
        !valid_number(text),
    ensures
        tokens_of(text) is None,
{
    lemma_scan_all_num(text, 0);
    assert(text.take(0) =~= seq![]);
}

/// The scan of a text whose first `k` characters are numeric and whose
/// character at `k` is not, when the first `k` characters make a malformed
/// lexeme: the flush at position `k` fails, whatever follows.
proof fn lemma_scan_num_prefix_fatal(text: Seq<char>, i: int, k: int)
    requires
        0 <= i <= k < text.len(),
        0 < k,
        forall|j: int| 0 <= j < k ==> is_num_char(#[trigger] text[j]),
        !is_num_char(text[k]),
        !valid_number(text.take(k)),
    ensures
        scan_from(text, i, text.take(i), seq![]) is None,
    decreases k - i,
{
    if i < k {
        lemma_scan_num_prefix_fatal(text, i + 1, k);
        assert(text.take(i).push(text[i]) =~= text.take(i + 1));
    }
}

/// Law: a malformed numeric lexeme is fatal wherever it is flushed.  If
/// the text opens with `k` numeric characters that make a malformed
/// lexeme, and the character after them is not numeric, tokenization of
/// the whole text aborts, whatever follows.
pub proof fn lemma_malformed_flush_fatal(text: Seq<char>, k: int)
    requires
        0 < k < text.len(),
        forall|j: int| 0 <= j < k ==> is_num_char(#[trigger] text[j]),
        !is_num_char(text[k]),
        !valid_number(text.take(k)),
    ensures
        tokens_of(text) is None,
{
    lemma_scan_num_prefix_fatal(text, 0, k);
    assert(text.take(0) =~= seq![]);
}

} // verus!
