//! What holds of the tokenizer: the shape of the tokens it gives, that tokens
//! written out with one space between them are read back unchanged, and that a
//! saved stack reads back as the stack.
use vstd::prelude::*;
use crate::number::{
    decimal,
    is_digit,
    is_number,
    lemma_decimal_denotes,
    lemma_number_round_trip,
    number_value,
    signed_decimal,
};
use crate::text::is_space;
use crate::utils::file_manager::{
    lemma_next_quote_bounds,
    lemma_next_space_bounds,
    next_quote,
    next_space,
    print_text_end,
    print_text_starts,
    print_text_token,
    stack_text,
    tokens_from,
    tokens_of,
};

verus! {

/// Tokens written out with one space between two of them.
pub open spec fn joined(tokens: Seq<Seq<char>>) -> Seq<char>
    decreases tokens.len(),
{
    if tokens.len() == 0 {
        Seq::empty()
    } else if tokens.len() == 1 {
        tokens[0]
    } else {
        tokens[0] + seq![' '] + joined(tokens.skip(1))
    }
}

/// A token of the ordinary kind: not empty, without a separator in it, and not
/// starting with `.`.
pub open spec fn is_plain_token(token: Seq<char>) -> bool {
    &&& token.len() > 0
    &&& token[0] != '.'
    &&& forall|i: int| 0 <= i < token.len() ==> !is_space(#[trigger] token[i])
}

/// A print-text token in full: `."`, a space, a text without `"`, and `"`.
pub open spec fn is_closed_print_text(token: Seq<char>) -> bool {
    &&& token.len() >= 4
    &&& token[0] == '.'
    &&& token[1] == '"'
    &&& token[2] == ' '
    &&& token.last() == '"'
    &&& forall|i: int| 3 <= i < token.len() - 1 ==> #[trigger] token[i] != '"'
}

/// What the tokenizer gives as a token: `.` by itself, a print-text token in
/// full, or a token of the ordinary kind.
pub open spec fn is_token(token: Seq<char>) -> bool {
    token == seq!['.'] || is_closed_print_text(token) || is_plain_token(token)
}

/// Whether each of `tokens` is what the tokenizer gives as a token.
pub open spec fn all_tokens(tokens: Seq<Seq<char>>) -> bool {
    forall|k: int| 0 <= k < tokens.len() ==> is_token(#[trigger] tokens[k])
}

/// Everything that the tokenizer gives is a token. In particular no token but
/// a print-text token holds a separator.
pub proof fn lemma_tokens_are_tokens(chars: Seq<char>, at: nat)
    ensures
        all_tokens(tokens_from(chars, at)),
    decreases chars.len() - at,
{
    let i = at as int;
    if i >= chars.len() {
    } else if is_space(chars[i]) {
        lemma_tokens_are_tokens(chars, at + 1);
    } else if chars[i] == '.' {
        if print_text_starts(chars, i) {
            lemma_next_quote_bounds(chars, i + 3);
            let token = print_text_token(chars, i);
            let rest = tokens_from(chars, print_text_end(chars, i) as nat);
            lemma_tokens_are_tokens(chars, print_text_end(chars, i) as nat);
            assert(is_closed_print_text(token)) by {
                assert forall|j: int| 3 <= j < token.len() - 1 implies #[trigger] token[j]
                    != '"' by {
                    assert(token[j] == chars[i + j]);
                }
            }
            assert forall|k: int| 0 <= k < (seq![token] + rest).len() implies is_token(
                #[trigger] (seq![token] + rest)[k],
            ) by {
                if k > 0 {
                    assert((seq![token] + rest)[k] == rest[k - 1]);
                }
            }
        } else {
            let rest = tokens_from(chars, at + 1);
            lemma_tokens_are_tokens(chars, at + 1);
            assert forall|k: int| 0 <= k < (seq![seq!['.']] + rest).len() implies is_token(
                #[trigger] (seq![seq!['.']] + rest)[k],
            ) by {
                if k > 0 {
                    assert((seq![seq!['.']] + rest)[k] == rest[k - 1]);
                }
            }
        }
    } else {
        lemma_next_space_bounds(chars, i + 1);
        let end = next_space(chars, i + 1);
        let token = chars.subrange(i, end);
        let rest = tokens_from(chars, end as nat);
        lemma_tokens_are_tokens(chars, end as nat);
        assert(is_plain_token(token)) by {
            assert forall|j: int| 0 <= j < token.len() implies !is_space(#[trigger] token[j]) by {
                assert(token[j] == chars[i + j]);
            }
        }
        assert forall|k: int| 0 <= k < (seq![token] + rest).len() implies is_token(
            #[trigger] (seq![token] + rest)[k],
        ) by {
            if k > 0 {
                assert((seq![token] + rest)[k] == rest[k - 1]);
            }
        }
    }
}

/// Where a run without separators ends, the next separator is found.
proof fn lemma_next_space_run(chars: Seq<char>, at: int, end: int)
    requires
        0 <= at <= end <= chars.len(),
        forall|k: int| at <= k < end ==> !is_space(chars[k]),
        end == chars.len() || is_space(chars[end]),
    ensures
        next_space(chars, at) == end,
    decreases end - at,
{
    if at < end {
        lemma_next_space_run(chars, at + 1, end);
    }
}

/// Where a run without `"` ends, the next `"` is found.
proof fn lemma_next_quote_run(chars: Seq<char>, at: int, end: int)
    requires
        0 <= at <= end <= chars.len(),
        forall|k: int| at <= k < end ==> chars[k] != '"',
        end == chars.len() || chars[end] == '"',
    ensures
        next_quote(chars, at) == end,
    decreases end - at,
{
    if at < end {
        lemma_next_quote_run(chars, at + 1, end);
    }
}

/// Tokenizing behind a prefix is tokenizing what follows the prefix.
proof fn lemma_tokens_from_shift(head: Seq<char>, tail: Seq<char>, at: nat)
    requires
        at <= tail.len(),
    ensures
        tokens_from(head + tail, head.len() + at) == tokens_from(tail, at),
    decreases tail.len() - at,
{
    let all = head + tail;
    let shift = head.len() as int;
    let i = at as int;
    assert forall|j: int| 0 <= j < tail.len() implies all[shift + j] == tail[j] by {}
    if i >= tail.len() {
    } else if is_space(tail[i]) {
        lemma_tokens_from_shift(head, tail, at + 1);
    } else if tail[i] == '.' {
        if print_text_starts(tail, i) {
            lemma_next_quote_bounds(tail, i + 3);
            let close = next_quote(tail, i + 3);
            assert(print_text_starts(all, shift + i));
            lemma_next_quote_run(all, shift + i + 3, shift + close);
            assert(all.subrange(shift + i + 3, shift + close) =~= tail.subrange(i + 3, close));
            assert(print_text_token(all, shift + i) == print_text_token(tail, i));
            assert(print_text_end(all, shift + i) == shift + print_text_end(tail, i));
            lemma_tokens_from_shift(head, tail, print_text_end(tail, i) as nat);
        } else {
            assert(!print_text_starts(all, shift + i));
            lemma_tokens_from_shift(head, tail, at + 1);
        }
    } else {
        lemma_next_space_bounds(tail, i + 1);
        let end = next_space(tail, i + 1);
        lemma_next_space_run(all, shift + i + 1, shift + end);
        assert(all.subrange(shift + i, shift + end) =~= tail.subrange(i, end));
        lemma_tokens_from_shift(head, tail, end as nat);
    }
}

/// A token at the start of a text, with a space or nothing behind it, is read
/// as the first token.
proof fn lemma_token_is_read_first(token: Seq<char>, rest: Seq<char>)
    requires
        is_token(token),
        rest.len() == 0 || rest[0] == ' ',
    ensures
        tokens_from(token + rest, 0) == seq![token] + tokens_from(token + rest, token.len()),
{
    let all = token + rest;
    let n = token.len() as int;
    assert forall|j: int| 0 <= j < n implies all[j] == token[j] by {}
    assert(rest.len() > 0 ==> all[n] == ' ');
    if token == seq!['.'] {
        assert(all[0] == '.');
        assert(!print_text_starts(all, 0));
    } else if is_closed_print_text(token) {
        assert(print_text_starts(all, 0));
        assert(all[n - 1] == '"');
        lemma_next_quote_run(all, 3, n - 1);
        assert(print_text_token(all, 0) =~= token);
        assert(print_text_end(all, 0) == n);
    } else {
        assert(!is_space(all[0]));
        lemma_next_space_run(all, 1, n);
        assert(all.subrange(0, n) =~= token);
    }
}

/// Tokens written out with one space between them are read back as they are.
pub proof fn lemma_joined_tokens_read_back(tokens: Seq<Seq<char>>)
    requires
        all_tokens(tokens),
    ensures
        tokens_of(joined(tokens)) == tokens,
    decreases tokens.len(),
{
    if tokens.len() == 0 {
        assert(tokens_of(joined(tokens)) =~= tokens);
    } else if tokens.len() == 1 {
        let token = tokens[0];
        assert(token + Seq::<char>::empty() =~= token);
        lemma_token_is_read_first(token, Seq::empty());
        assert(tokens_from(token, token.len()) =~= Seq::<Seq<char>>::empty());
        assert(tokens_of(joined(tokens)) =~= tokens);
    } else {
        let token = tokens[0];
        let others = tokens.skip(1);
        let tail = joined(others);
        let all = joined(tokens);
        assert(all =~= token + (seq![' '] + tail));
        lemma_token_is_read_first(token, seq![' '] + tail);
        assert(all[token.len() as int] == ' ');
        assert(tokens_from(all, token.len()) == tokens_from(all, token.len() + 1));
        assert(all =~= (token + seq![' ']) + tail);
        lemma_tokens_from_shift(token + seq![' '], tail, 0);
        assert(all_tokens(others)) by {
            assert forall|k: int| 0 <= k < others.len() implies is_token(#[trigger] others[k]) by {
                assert(others[k] == tokens[k + 1]);
            }
        }
        lemma_joined_tokens_read_back(others);
        assert(tokens_of(all) =~= tokens);
    }
}

/// Reading a source, writing its tokens out with one space between them and
/// reading that text gives the same tokens.
pub proof fn lemma_tokenize_round_trip(source: Seq<char>)
    ensures
        tokens_of(joined(tokens_of(source))) == tokens_of(source),
{
    lemma_tokens_are_tokens(source, 0);
    lemma_joined_tokens_read_back(tokens_of(source));
}

/// The values of a stack, each in decimal.
pub open spec fn decimals(stack: Seq<i16>) -> Seq<Seq<char>> {
    Seq::new(stack.len(), |i: int| signed_decimal(stack[i] as int))
}

/// One token more is written behind the others, after a space.
proof fn lemma_joined_push(tokens: Seq<Seq<char>>, last: Seq<char>)
    requires
        tokens.len() > 0,
    ensures
        joined(tokens.push(last)) == joined(tokens) + seq![' '] + last,
    decreases tokens.len(),
{
    let more = tokens.push(last);
    if tokens.len() == 1 {
        assert(more.skip(1) =~= seq![last]);
        assert(joined(more.skip(1)) == last);
    } else {
        assert(more.skip(1) =~= tokens.skip(1).push(last));
        lemma_joined_push(tokens.skip(1), last);
        assert(joined(more) =~= joined(tokens) + seq![' '] + last);
    }
}

/// A 16-bit integer in decimal is a token of the ordinary kind.
proof fn lemma_decimal_is_plain_token(n: i16)
    ensures
        is_plain_token(signed_decimal(n as int)),
{
    let text = signed_decimal(n as int);
    if n < 0 {
        let digits = decimal((-n) as nat);
        lemma_decimal_denotes((-n) as nat);
        assert forall|i: int| 0 <= i < text.len() implies !is_space(#[trigger] text[i]) by {
            if i > 0 {
                assert(text[i] == digits[i - 1]);
                assert(is_digit(digits[i - 1]));
            }
        }
    } else {
        lemma_decimal_denotes(n as nat);
        assert(is_digit(text[0]));
        assert forall|i: int| 0 <= i < text.len() implies !is_space(#[trigger] text[i]) by {
            assert(is_digit(text[i]));
        }
    }
}

/// The text that is saved for a stack is its values in decimal with one space
/// between two of them.
proof fn lemma_stack_text_is_joined(stack: Seq<i16>)
    ensures
        stack_text(stack) == joined(decimals(stack)),
    decreases stack.len(),
{
    if stack.len() == 0 {
    } else if stack.len() == 1 {
        assert(decimals(stack)[0] == signed_decimal(stack[0] as int));
    } else {
        let before = stack.drop_last();
        lemma_stack_text_is_joined(before);
        assert(decimals(stack) =~= decimals(before).push(signed_decimal(stack.last() as int)));
        lemma_joined_push(decimals(before), signed_decimal(stack.last() as int));
    }
}

/// A saved stack reads back: the text that is saved for a stack splits into as
/// many tokens as the stack has values, and each token is a number literal with
/// the value at its place.
pub proof fn lemma_saved_stack_reads_back(stack: Seq<i16>)
    ensures
        tokens_of(stack_text(stack)).len() == stack.len(),
        forall|i: int|
            0 <= i < stack.len() ==> is_number(#[trigger] tokens_of(stack_text(stack))[i])
                && number_value(tokens_of(stack_text(stack))[i]) == stack[i],
{
    lemma_stack_text_is_joined(stack);
    assert(all_tokens(decimals(stack))) by {
        assert forall|k: int| 0 <= k < decimals(stack).len() implies is_token(
            #[trigger] decimals(stack)[k],
        ) by {
            lemma_decimal_is_plain_token(stack[k]);
        }
    }
    lemma_joined_tokens_read_back(decimals(stack));
    assert forall|i: int| 0 <= i < stack.len() implies is_number(
        #[trigger] tokens_of(stack_text(stack))[i],
    ) && number_value(tokens_of(stack_text(stack))[i]) == stack[i] by {
        lemma_number_round_trip(stack[i]);
    }
}

} // verus!
