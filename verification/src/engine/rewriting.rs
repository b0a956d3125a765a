//! What it means to rewrite a program: definitions are taken out and recorded,
//! and every other word is bound to the definition in sight where it stands.
use vstd::prelude::*;
use crate::engine::error::OperationError;
use crate::engine::operation::conditional::is_control;
use crate::engine::operation::word_definition::{
    defines,
    has_version,
    lemma_positions_of,
    positions_of,
    WordSpec,
};
use crate::engine::semantics::{eval_from, lemma_eval_reads_below_level};
use crate::engine::operation::{is_print_text, resolve_spelling};
use crate::engine::token::{
    lemma_canonical_tag_reads_back,
    lemma_version_tag_reads_back,
    shape_of,
    with_canonical_tag,
    with_version_tag,
    TokenShape,
};
use crate::number::is_number;
use crate::text::lowercase_of;

verus! {

/// The token that opens a definition.
pub open spec fn colon() -> Seq<char> {
    ":"@
}

/// The token that closes a definition.
pub open spec fn semicolon() -> Seq<char> {
    ";"@
}

/// A token in the case in which it is matched: a print-text token as it is,
/// any other in lower case.
pub open spec fn normalize_token(token: Seq<char>) -> Seq<char> {
    if is_print_text(token) {
        token
    } else {
        lowercase_of(token)
    }
}

/// Every token in the case in which it is matched.
pub open spec fn normalize(tokens: Seq<Seq<char>>) -> Seq<Seq<char>> {
    Seq::new(tokens.len(), |i: int| normalize_token(tokens[i]))
}

/// How often `token` occurs among `tokens`.
pub open spec fn count_of(tokens: Seq<Seq<char>>, token: Seq<char>) -> nat
    decreases tokens.len(),
{
    if tokens.len() == 0 {
        0
    } else if tokens.last() == token {
        count_of(tokens.drop_last(), token) + 1
    } else {
        count_of(tokens.drop_last(), token)
    }
}

/// Whether every token that holds the character `mark` is the token `alone`.
pub open spec fn stands_alone(tokens: Seq<Seq<char>>, mark: char, alone: Seq<char>) -> bool {
    forall|i: int| 0 <= i < tokens.len() && (#[trigger] tokens[i]).contains(mark) ==> tokens[i] == alone
}

/// Whether the definitions of a program are well formed: there are as many
/// `:` as `;`, and neither character occurs inside another token.
pub open spec fn well_formed_definitions(tokens: Seq<Seq<char>>) -> bool {
    &&& count_of(tokens, colon()) == count_of(tokens, semicolon())
    &&& stands_alone(tokens, ':', colon())
    &&& stands_alone(tokens, ';', semicolon())
}

/// Counting over one token more.
pub proof fn lemma_count_of_push(tokens: Seq<Seq<char>>, last: Seq<char>, token: Seq<char>)
    ensures
        count_of(tokens.push(last), token) == count_of(tokens, token) + if last == token {
            1nat
        } else {
            0nat
        },
{
    assert(tokens.push(last).drop_last() =~= tokens);
}

/// A mark stands alone in one token more when it stands alone so far and in
/// that token.
pub proof fn lemma_stands_alone_push(
    tokens: Seq<Seq<char>>,
    last: Seq<char>,
    mark: char,
    alone: Seq<char>,
)
    ensures
        stands_alone(tokens.push(last), mark, alone) == (stands_alone(tokens, mark, alone) && (
        last.contains(mark) ==> last == alone)),
{
    let more = tokens.push(last);
    if stands_alone(more, mark, alone) {
        assert forall|i: int| 0 <= i < tokens.len() && (#[trigger] tokens[i]).contains(
            mark,
        ) implies tokens[i] == alone by {
            assert(more[i] == tokens[i]);
        }
        assert(more[tokens.len() as int] == last);
    }
    if stands_alone(tokens, mark, alone) && (last.contains(mark) ==> last == alone) {
        assert forall|i: int| 0 <= i < more.len() && (#[trigger] more[i]).contains(
            mark,
        ) implies more[i] == alone by {
            if i < tokens.len() {
                assert(more[i] == tokens[i]);
            }
        }
    }
}

/// A token bound to what it names among `words`. A number and a control token
/// stay as they are. A defined word gets the position of its latest
/// definition, a built-in operation the tag `c`. An unknown word stays as it
/// is.
pub open spec fn tag_token(words: Seq<WordSpec>, token: Seq<char>) -> Seq<char> {
    if is_number(token) || is_control(token) {
        token
    } else if defines(words, token) {
        with_version_tag(token, positions_of(words, token).last() as nat)
    } else if resolve_spelling(token) is Some {
        with_canonical_tag(token)
    } else {
        token
    }
}

/// Every token bound to what it names among `words`.
pub open spec fn tag_all(words: Seq<WordSpec>, tokens: Seq<Seq<char>>) -> Seq<Seq<char>> {
    Seq::new(tokens.len(), |i: int| tag_token(words, tokens[i]))
}

/// The position of the first `;` at or after `at`, or the number of tokens
/// when there is none.
pub open spec fn next_semicolon(tokens: Seq<Seq<char>>, at: int) -> int
    decreases tokens.len() - at,
{
    if at >= tokens.len() {
        tokens.len() as int
    } else if tokens[at] == semicolon() {
        at
    } else {
        next_semicolon(tokens, at + 1)
    }
}

/// The next `;` lies at or after `at`, and no `;` stands before it.
pub proof fn lemma_next_semicolon_bounds(tokens: Seq<Seq<char>>, at: int)
    requires
        0 <= at <= tokens.len(),
    ensures
        at <= next_semicolon(tokens, at) <= tokens.len(),
        next_semicolon(tokens, at) < tokens.len() ==> tokens[next_semicolon(tokens, at)]
            == semicolon(),
        forall|k: int| at <= k < next_semicolon(tokens, at) ==> tokens[k] != semicolon(),
    decreases tokens.len() - at,
{
    if at < tokens.len() && tokens[at] != semicolon() {
        lemma_next_semicolon_bounds(tokens, at + 1);
    }
}

/// A rewritten program: the definitions afterwards, the tokens that are left,
/// and the error if the program was refused.
pub struct Rewritten {
    pub words: Seq<WordSpec>,
    pub tokens: Seq<Seq<char>>,
    pub error: Option<OperationError>,
}

/// Rewrites `tokens` from `at` on, with the definitions `words` made and the
/// tokens `out` left so far.
///
/// A `:` opens a definition: the next token is its name and the tokens up to
/// the next `;` are its body, each bound as it stands there, before the word
/// itself is defined. A name that is a number is refused with `InvalidWord`,
/// and what was defined before stays defined. A `:` that ends the program
/// defines nothing. Any other token is bound and left in the program.
pub open spec fn rewrite_from(
    tokens: Seq<Seq<char>>,
    at: nat,
    words: Seq<WordSpec>,
    out: Seq<Seq<char>>,
) -> Rewritten
    decreases tokens.len() - at,
{
    let i = at as int;
    if i >= tokens.len() {
        Rewritten { words, tokens: out, error: None }
    } else if tokens[i] == colon() {
        if i + 1 >= tokens.len() {
            Rewritten { words, tokens: out, error: None }
        } else if is_number(tokens[i + 1]) {
            Rewritten { words, tokens: out, error: Some(OperationError::InvalidWord) }
        } else {
            proof {
                lemma_next_semicolon_bounds(tokens, i + 2);
            }
            let end = next_semicolon(tokens, i + 2);
            let word = WordSpec {
                name: tokens[i + 1],
                body: tag_all(words, tokens.subrange(i + 2, end)),
            };
            let next = if end < tokens.len() {
                end + 1
            } else {
                end
            };
            rewrite_from(tokens, next as nat, words.push(word), out)
        }
    } else {
        rewrite_from(tokens, at + 1, words, out.push(tag_token(words, tokens[i])))
    }
}

/// Rewrites a program whose tokens are in the case in which they are matched.
/// Definitions that are not well formed are refused with `InvalidWordFormat`
/// and nothing is defined.
pub open spec fn rewrite(words: Seq<WordSpec>, tokens: Seq<Seq<char>>) -> Rewritten {
    if !well_formed_definitions(tokens) {
        Rewritten { words, tokens, error: Some(OperationError::InvalidWordFormat) }
    } else {
        rewrite_from(tokens, 0, words, Seq::empty())
    }
}

/// Whether a rewritten token can be evaluated: a number, a control token, a
/// built-in operation with the tag `c`, or a name with the position of one of
/// its definitions.
pub open spec fn is_valid_token(words: Seq<WordSpec>, token: Seq<char>) -> bool {
    is_control(token) || match shape_of(token) {
        TokenShape::Number(_) => true,
        TokenShape::Canonical(name) => resolve_spelling(name) is Some,
        TokenShape::Versioned(name, position) => has_version(words, name, position as int),
        TokenShape::Other => false,
    }
}

/// Whether every one of the rewritten tokens can be evaluated.
pub open spec fn all_valid(words: Seq<WordSpec>, tokens: Seq<Seq<char>>) -> bool {
    forall|i: int| 0 <= i < tokens.len() ==> is_valid_token(words, #[trigger] tokens[i])
}

/// Rewriting only adds definitions: every definition made before is still
/// there afterwards, at its position and unchanged.
pub proof fn lemma_rewrite_from_only_adds(
    tokens: Seq<Seq<char>>,
    at: nat,
    words: Seq<WordSpec>,
    out: Seq<Seq<char>>,
)
    ensures
        words.len() <= rewrite_from(tokens, at, words, out).words.len(),
        forall|k: int|
            0 <= k < words.len() ==> rewrite_from(tokens, at, words, out).words[k] == words[k],
    decreases tokens.len() - at,
{
    let i = at as int;
    if i >= tokens.len() {
    } else if tokens[i] == colon() {
        if i + 1 < tokens.len() && !is_number(tokens[i + 1]) {
            lemma_next_semicolon_bounds(tokens, i + 2);
            let end = next_semicolon(tokens, i + 2);
            let word = WordSpec {
                name: tokens[i + 1],
                body: tag_all(words, tokens.subrange(i + 2, end)),
            };
            let next = if end < tokens.len() {
                end + 1
            } else {
                end
            };
            lemma_rewrite_from_only_adds(tokens, next as nat, words.push(word), out);
            assert forall|k: int| 0 <= k < words.len() implies rewrite_from(
                tokens,
                at,
                words,
                out,
            ).words[k] == words[k] by {
                assert(words.push(word)[k] == words[k]);
            }
        }
    } else {
        lemma_rewrite_from_only_adds(
            tokens,
            at + 1,
            words,
            out.push(tag_token(words, tokens[i])),
        );
    }
}

/// Early binding: whatever a program defines or defines again, the tokens of
/// an earlier level do afterwards what they did before. In particular the
/// body recorded at a position, evaluated at the level of that position,
/// behaves after the program as it did before it.
pub proof fn lemma_rewrite_keeps_earlier_behaviour(
    words: Seq<WordSpec>,
    program: Seq<Seq<char>>,
    level: nat,
    tokens: Seq<Seq<char>>,
    capacity: int,
    stack: Seq<i16>,
    output: Seq<char>,
)
    requires
        level <= words.len(),
    ensures
        eval_from(rewrite(words, program).words, level, tokens, 0, capacity, stack, output)
            == eval_from(words, level, tokens, 0, capacity, stack, output),
        forall|position: int|
            0 <= position < words.len() ==> rewrite(words, program).words[position]
                == words[position],
{
    lemma_rewrite_from_only_adds(program, 0, words, Seq::empty());
    lemma_eval_reads_below_level(
        rewrite(words, program).words,
        words,
        level,
        tokens,
        0,
        capacity,
        stack,
        output,
    );
}

/// A token that names something is bound to a token that can be evaluated: a
/// defined word to the position of its latest definition, a built-in operation
/// to itself with the tag `c`; a number and a control token stay as they are.
pub proof fn lemma_bound_token_is_valid(words: Seq<WordSpec>, token: Seq<char>)
    requires
        is_number(token) || is_control(token) || defines(words, token) || resolve_spelling(token)
            is Some,
    ensures
        is_valid_token(words, tag_token(words, token)),
        !is_number(token) && !is_control(token) && defines(words, token) ==> shape_of(
            tag_token(words, token),
        ) == TokenShape::Versioned(token, positions_of(words, token).last() as nat)
            && has_version(words, token, positions_of(words, token).last()),
{
    if is_number(token) || is_control(token) {
    } else if defines(words, token) {
        let latest = positions_of(words, token).last();
        lemma_positions_of(words, token);
        assert(has_version(words, token, latest));
        lemma_version_tag_reads_back(token, latest as nat);
    } else {
        lemma_canonical_tag_reads_back(token);
    }
}

} // verus!
