//! From source text to tokens, and from a stack to the text that is saved for it.
use vstd::prelude::*;
use crate::number::{push_signed, signed_decimal};
use vstd::slice::slice_subrange;
use crate::text::{chars_of, is_space, is_whitespace, push_char, string_of, texts};

verus! {

/// The position of the first `"` at or after `at`, or the length of the text
/// when there is none.
pub open spec fn next_quote(chars: Seq<char>, at: int) -> int
    decreases chars.len() - at,
{
    if at >= chars.len() {
        chars.len() as int
    } else if chars[at] == '"' {
        at
    } else {
        next_quote(chars, at + 1)
    }
}

/// The position of the first separator at or after `at`, or the length of the
/// text when there is none.
pub open spec fn next_space(chars: Seq<char>, at: int) -> int
    decreases chars.len() - at,
{
    if at >= chars.len() {
        chars.len() as int
    } else if is_space(chars[at]) {
        at
    } else {
        next_space(chars, at + 1)
    }
}

/// The next `"` lies at or after `at`, and no `"` stands before it.
pub proof fn lemma_next_quote_bounds(chars: Seq<char>, at: int)
    requires
        0 <= at <= chars.len(),
    ensures
        at <= next_quote(chars, at) <= chars.len(),
        next_quote(chars, at) < chars.len() ==> chars[next_quote(chars, at)] == '"',
        forall|k: int| at <= k < next_quote(chars, at) ==> chars[k] != '"',
    decreases chars.len() - at,
{
    if at < chars.len() && chars[at] != '"' {
        lemma_next_quote_bounds(chars, at + 1);
    }
}

/// The next separator lies at or after `at`, and no separator stands before it.
pub proof fn lemma_next_space_bounds(chars: Seq<char>, at: int)
    requires
        0 <= at <= chars.len(),
    ensures
        at <= next_space(chars, at) <= chars.len(),
        next_space(chars, at) < chars.len() ==> is_space(chars[next_space(chars, at)]),
        forall|k: int| at <= k < next_space(chars, at) ==> !is_space(chars[k]),
    decreases chars.len() - at,
{
    if at < chars.len() && !is_space(chars[at]) {
        lemma_next_space_bounds(chars, at + 1);
    }
}

/// Whether a print-text token starts at `at`: `."` and a space.
pub open spec fn print_text_starts(chars: Seq<char>, at: int) -> bool {
    0 <= at && at + 2 < chars.len() && chars[at] == '.' && chars[at + 1] == '"' && chars[at + 2]
        == ' '
}

/// The print-text token that starts at `at`: `."`, the space, the text up to
/// the next `"`, and a `"`, which is supplied where the text ends without one.
pub open spec fn print_text_token(chars: Seq<char>, at: int) -> Seq<char> {
    seq!['.', '"', ' '] + chars.subrange(at + 3, next_quote(chars, at + 3)) + seq!['"']
}

/// Where reading goes on behind the print-text token that starts at `at`:
/// behind its `"`, or at the end of the text.
pub open spec fn print_text_end(chars: Seq<char>, at: int) -> int {
    if next_quote(chars, at + 3) < chars.len() {
        next_quote(chars, at + 3) + 1
    } else {
        chars.len() as int
    }
}

/// The tokens of the text from `at` on. Separators are skipped. `."` with a
/// space behind it starts a print-text token, which runs to the next `"`. Any
/// other `.` is a token by itself. Everything else is a token up to the next
/// separator.
pub open spec fn tokens_from(chars: Seq<char>, at: nat) -> Seq<Seq<char>>
    decreases chars.len() - at,
{
    let i = at as int;
    if i >= chars.len() {
        Seq::empty()
    } else if is_space(chars[i]) {
        tokens_from(chars, at + 1)
    } else if chars[i] == '.' {
        if print_text_starts(chars, i) {
            proof {
                lemma_next_quote_bounds(chars, i + 3);
            }
            seq![print_text_token(chars, i)] + tokens_from(chars, print_text_end(chars, i) as nat)
        } else {
            seq![seq!['.']] + tokens_from(chars, at + 1)
        }
    } else {
        proof {
            lemma_next_space_bounds(chars, i + 1);
        }
        seq![chars.subrange(i, next_space(chars, i + 1))] + tokens_from(
            chars,
            next_space(chars, i + 1) as nat,
        )
    }
}

/// The tokens of a source text.
pub open spec fn tokens_of(source: Seq<char>) -> Seq<Seq<char>> {
    tokens_from(source, 0)
}

/// The text that is saved for a stack: its values in decimal, bottom first,
/// with one space between two of them.
pub open spec fn stack_text(stack: Seq<i16>) -> Seq<char>
    decreases stack.len(),
{
    if stack.len() == 0 {
        Seq::empty()
    } else if stack.len() == 1 {
        signed_decimal(stack[0] as int)
    } else {
        stack_text(stack.drop_last()) + seq![' '] + signed_decimal(stack.last() as int)
    }
}

/// Whether a print-text token starts at position `i` of `chars`.
pub fn is_print_text_format_valid(chars: &[char], i: usize) -> (r: bool)
    ensures
        r == print_text_starts(chars@, i as int),
{
    i < chars.len() && chars.len() - i > 2 && chars[i] == '.' && chars[i + 1] == '"' && chars[i
        + 2] == ' '
}

/// Reads the print-text token that starts at position `i` of `chars`, appends
/// it to `tokens` and returns the position behind it.
fn process_print_text_operation(chars: &[char], i: usize, tokens: &mut Vec<String>) -> (next:
    usize)
    requires
        print_text_starts(chars@, i as int),
    ensures
        next == print_text_end(chars@, i as int),
        i + 3 <= next <= chars@.len(),
        final(tokens)@.len() == old(tokens)@.len() + 1,
        final(tokens)@.take(old(tokens)@.len() as int) == old(tokens)@,
        final(tokens)@.last()@ == print_text_token(chars@, i as int),
{
    let total = chars.len();
    let mut literal = String::new();
    push_char(&mut literal, '.');
    push_char(&mut literal, '"');
    push_char(&mut literal, ' ');
    let mut j: usize = i + 3;
    while j < total && chars[j] != '"'
        invariant
            total == chars@.len(),
            i + 3 <= j <= chars@.len(),
            next_quote(chars@, i + 3) == next_quote(chars@, j as int),
            literal@ == seq!['.', '"', ' '] + chars@.subrange(i + 3, j as int),
        decreases chars@.len() - j,
    {
        push_char(&mut literal, chars[j]);
        assert(chars@.subrange(i + 3, j + 1) =~= chars@.subrange(i + 3, j as int).push(
            chars@[j as int],
        ));
        assert(literal@ =~= seq!['.', '"', ' '] + chars@.subrange(i + 3, j + 1));
        j += 1;
    }
    let next = if j < total {
        j + 1
    } else {
        j
    };
    push_char(&mut literal, '"');
    assert(literal@ =~= print_text_token(chars@, i as int));
    tokens.push(literal);
    assert(tokens@.take(old(tokens)@.len() as int) =~= old(tokens)@);
    next
}

/// Splits a source text into tokens.
pub fn tokenize(input: &str) -> (tokens: Vec<String>)
    ensures
        texts(tokens@) == tokens_of(input@),
{
    let chars = chars_of(input);
    let ghost source = chars@;
    let mut tokens: Vec<String> = Vec::new();
    let mut i: usize = 0;
    assert(texts(tokens@) =~= Seq::<Seq<char>>::empty());
    while i < chars.len()
        invariant
            i <= chars@.len(),
            source == chars@,
            tokens_of(source) == texts(tokens@) + tokens_from(source, i as nat),
        decreases chars@.len() - i,
    {
        if is_whitespace(chars[i]) {
            i += 1;
            continue ;
        }
        let ghost before = tokens@;
        if chars[i] == '.' {
            if is_print_text_format_valid(chars.as_slice(), i) {
                i = process_print_text_operation(chars.as_slice(), i, &mut tokens);
            } else {
                tokens.push(string_of(slice_subrange(chars.as_slice(), i, i + 1)));
                assert(tokens@.last()@ =~= seq!['.']);
                i += 1;
            }
        } else {
            let start = i;
            i += 1;
            while i < chars.len() && !is_whitespace(chars[i])
                invariant
                    start < i <= chars@.len(),
                    next_space(chars@, start + 1) == next_space(chars@, i as int),
                decreases chars@.len() - i,
            {
                i += 1;
            }
            tokens.push(string_of(slice_subrange(chars.as_slice(), start, i)));
        }
        proof {
            assert(tokens@.len() == before.len() + 1);
            assert(tokens@.take(before.len() as int) =~= before);
            assert(texts(tokens@) =~= texts(before).push(
                tokens@.last()@,
            ));
        }
    }
    assert(tokens_from(source, i as nat) =~= Seq::<Seq<char>>::empty());
    tokens
}

/// The text that is saved for a stack: its values in decimal, bottom first,
/// with one space between two of them.
pub fn save_stack(stack: &[i16]) -> (text: String)
    ensures
        text@ == stack_text(stack@),
{
    let mut text = String::new();
    let mut i: usize = 0;
    while i < stack.len()
        invariant
            i <= stack@.len(),
            text@ == stack_text(stack@.take(i as int)),
        decreases stack@.len() - i,
    {
        if i > 0 {
            push_char(&mut text, ' ');
        }
        push_signed(&mut text, stack[i]);
        proof {
            assert(stack@.take(i + 1).drop_last() =~= stack@.take(i as int));
            assert(stack@.take(i + 1).last() == stack@[i as int]);
            assert(text@ =~= stack_text(stack@.take(i + 1)));
        }
        i += 1;
    }
    assert(stack@.take(i as int) =~= stack@);
    text
}

} // verus!
