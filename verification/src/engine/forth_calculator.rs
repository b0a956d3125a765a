//! The calculator: a bounded stack, the words defined so far and the output of
//! the last run.
use vstd::prelude::*;
use crate::engine::error::OperationError;
use crate::engine::operation::conditional::{
    branch_indices,
    lemma_branch_indices_bounds,
    Conditional,
};
use crate::engine::operation::word_definition::{
    positions_of,
    WordRegistry,
    WordSpec,
};
use crate::engine::operation::{
    arithmetic,
    boolean,
    output,
    stack_manipulation,
    starts_print_text,
    Operation,
    OperationOutput,
    OperationType,
};
use crate::engine::rewriting::{
    all_valid,
    colon,
    count_of,
    is_valid_token,
    lemma_count_of_push,
    lemma_next_semicolon_bounds,
    lemma_stands_alone_push,
    next_semicolon,
    normalize,
    normalize_token,
    rewrite,
    rewrite_from,
    semicolon,
    stands_alone,
    tag_all,
    tag_token,
    well_formed_definitions,
};
use crate::engine::semantics::{
    builtin_outcome,
    done,
    eval_from,
    eval_program,
    step_outcome,
    taken_branch,
    Outcome,
};
use crate::engine::token::{push_canonical_tag, push_version_tag, read_shape, Shape};
use crate::number::parse_i16;
use crate::text::{
    chars_of,
    contains_char,
    lemma_texts_push,
    lemma_texts_subrange,
    str_equal,
    texts,
    to_lowercase,
};
use crate::utils::file_manager::{tokenize, tokens_of};
use vstd::string::StringExecFns;

verus! {

/// A stack-based calculator for a subset of Forth.
pub struct ForthCalculator {
    /// The number of values that the stack may hold.
    max_stack_size: i16,
    stack: Vec<i16>,
    word_registry: WordRegistry,
    /// What the last run printed.
    output: String,
}

/// What a calculator holds.
pub struct CalculatorState {
    /// The number of values that the stack may hold.
    pub capacity: int,
    pub stack: Seq<i16>,
    /// The definitions made so far.
    pub words: Seq<WordSpec>,
    /// What the last run printed.
    pub output: Seq<char>,
}

impl View for ForthCalculator {
    type V = CalculatorState;

    closed spec fn view(&self) -> CalculatorState {
        CalculatorState {
            capacity: self.max_stack_size as int,
            stack: self.stack@,
            words: self.word_registry@,
            output: self.output@,
        }
    }
}

/// What running a program makes of a calculator, given the tokens of the
/// program in the case in which they are matched.
///
/// The program is rewritten, which may add definitions. A program that rewriting
/// refuses, or that holds a token that cannot be evaluated, leaves the stack
/// as it was and prints the error. Any other program is evaluated; an error
/// stops it and is printed behind what was printed before it.
pub open spec fn run_tokens_result(state: CalculatorState, tokens: Seq<Seq<char>>) -> CalculatorState {
    let rewritten = rewrite(state.words, tokens);
    match rewritten.error {
        Some(e) => CalculatorState { words: rewritten.words, output: e.rendered(), ..state },
        None => if !all_valid(rewritten.words, rewritten.tokens) {
            CalculatorState {
                words: rewritten.words,
                output: OperationError::WordNotFound.rendered(),
                ..state
            }
        } else {
            let outcome = eval_program(
                rewritten.words,
                rewritten.tokens,
                state.capacity,
                state.stack,
                Seq::empty(),
            );
            CalculatorState {
                capacity: state.capacity,
                stack: outcome.stack,
                words: rewritten.words,
                output: match outcome.error {
                    Some(e) => outcome.output + e.rendered(),
                    None => outcome.output,
                },
            }
        },
    }
}

/// What running a source text makes of a calculator: the text is split into
/// tokens, the tokens are put in the case in which they are matched, and the
/// program is run.
pub open spec fn run_result(state: CalculatorState, source: Seq<char>) -> CalculatorState {
    run_tokens_result(state, normalize(tokens_of(source)))
}

/// Whether what a function returned and left behind is the given outcome.
pub open spec fn agrees(
    result: Result<(), OperationError>,
    stack: Seq<i16>,
    output: Seq<char>,
    outcome: Outcome,
) -> bool {
    &&& stack == outcome.stack
    &&& output == outcome.output
    &&& match outcome.error {
        Some(e) => result == Err::<(), OperationError>(e),
        None => result is Ok,
    }
}

impl ForthCalculator {
    /// The calculator is sound: its stack is within its capacity and the index
    /// of its registry agrees with the definitions.
    pub closed spec fn wf(&self) -> bool {
        &&& self.word_registry.wf()
        &&& 0 <= self.max_stack_size
        &&& self.stack@.len() <= self.max_stack_size
    }

    /// The stack of a sound calculator never holds more values than its
    /// capacity allows.
    pub proof fn lemma_stack_within_capacity(&self)
        requires
            self.wf(),
        ensures
            0 <= self@.stack.len() <= self@.capacity,
    {
    }

    /// A calculator with an empty stack for `stack_size` values, without
    /// definitions or output.
    pub fn new(stack_size: i16) -> (r: Self)
        requires
            stack_size >= 0,
        ensures
            r.wf(),
            r@ == (CalculatorState {
                capacity: stack_size as int,
                stack: Seq::empty(),
                words: Seq::empty(),
                output: Seq::empty(),
            }),
    {
        ForthCalculator {
            max_stack_size: stack_size,
            stack: Vec::new(),
            output: String::new(),
            word_registry: WordRegistry::new(),
        }
    }

    /// What the last run printed.
    pub fn get_output(&self) -> (r: &String)
        ensures
            r@ == self@.output,
    {
        &self.output
    }

    /// The stack, bottom first.
    pub fn get_stack(&self) -> (r: &Vec<i16>)
        ensures
            r@ == self@.stack,
    {
        &self.stack
    }

    /// The words defined so far.
    pub fn get_word_registry(&self) -> (r: &WordRegistry)
        requires
            self.wf(),
        ensures
            r@ == self@.words,
            r.wf(),
    {
        &self.word_registry
    }

    /// Whether the definitions among `tokens` are well formed.
    pub fn is_valid_word_definition(tokens: &[String]) -> (r: bool)
        ensures
            r == well_formed_definitions(texts(tokens@)),
    {
        let ghost all = texts(tokens@);
        let mut colons: usize = 0;
        let mut semicolons: usize = 0;
        let mut alone = true;
        let mut i: usize = 0;
        while i < tokens.len()
            invariant
                i <= tokens@.len(),
                all == texts(tokens@),
                colons == count_of(all.take(i as int), colon()),
                semicolons == count_of(all.take(i as int), semicolon()),
                colons <= i,
                semicolons <= i,
                alone == (stands_alone(all.take(i as int), ':', colon()) && stands_alone(
                    all.take(i as int),
                    ';',
                    semicolon(),
                )),
            decreases tokens@.len() - i,
        {
            let token = tokens[i].as_str();
            let cs = chars_of(token);
            let is_colon = str_equal(token, ":");
            let is_semicolon = str_equal(token, ";");
            proof {
                assert(all.take(i + 1) =~= all.take(i as int).push(token@));
                lemma_count_of_push(all.take(i as int), token@, colon());
                lemma_count_of_push(all.take(i as int), token@, semicolon());
                lemma_stands_alone_push(all.take(i as int), token@, ':', colon());
                lemma_stands_alone_push(all.take(i as int), token@, ';', semicolon());
            }
            if is_colon {
                colons += 1;
            }
            if is_semicolon {
                semicolons += 1;
            }
            if contains_char(cs.as_slice(), ':') && !is_colon {
                alone = false;
            }
            if contains_char(cs.as_slice(), ';') && !is_semicolon {
                alone = false;
            }
            i += 1;
        }
        assert(all.take(i as int) =~= all);
        alone && colons == semicolons
    }

    /// Puts every token in the case in which it is matched: a print-text token
    /// stays as it is, any other is put in lower case.
    pub fn normalize_tokens(tokens: &[String]) -> (r: Vec<String>)
        ensures
            texts(r@) == normalize(texts(tokens@)),
    {
        let mut normalized: Vec<String> = Vec::new();
        let mut i: usize = 0;
        while i < tokens.len()
            invariant
                i <= tokens@.len(),
                normalized@.len() == i,
                forall|k: int| 0 <= k < i ==> normalized@[k]@ == normalize_token(tokens@[k]@),
            decreases tokens@.len() - i,
        {
            let token = if starts_print_text(tokens[i].as_str()) {
                tokens[i].clone()
            } else {
                to_lowercase(tokens[i].as_str())
            };
            normalized.push(token);
            i += 1;
        }
        assert(texts(normalized@) =~= normalize(texts(tokens@)));
        normalized
    }

    /// Binds `token` to what it names among the words defined so far.
    pub fn append_word_version_suffix(&self, token: &mut String)
        requires
            self.wf(),
        ensures
            final(token)@ == tag_token(self@.words, old(token)@),
    {
        if parse_i16(token.as_str()).is_some() {
            return ;
        }
        if str_equal(token.as_str(), "if") || str_equal(token.as_str(), "else") || str_equal(
            token.as_str(),
            "then",
        ) {
            return ;
        }
        let latest: Option<usize> = match self.word_registry.get_word_versions(token.as_str()) {
            Some(word_versions) => {
                let last = word_versions[word_versions.len() - 1];
                assert(last as int == positions_of(self.word_registry@, token@).last());
                Some(last)
            },
            None => None,
        };
        match latest {
            Some(last_index) => {
                push_version_tag(token, last_index);
            },
            None => {
                if OperationType::from_spelling(token.as_str()).is_some() {
                    push_canonical_tag(token);
                }
            },
        }
    }

    /// Rewrites a program whose tokens are in the case in which they are
    /// matched: records its definitions and returns the tokens that are left,
    /// each bound to what it names where it stands.
    pub fn rewrite(&mut self, tokens: &[String]) -> (r: Result<Vec<String>, OperationError>)
        requires
            old(self).wf(),
        ensures
            final(self).wf(),
            ({
                let rewritten = rewrite(old(self)@.words, texts(tokens@));
                &&& final(self)@ == (CalculatorState { words: rewritten.words, ..old(self)@ })
                &&& match rewritten.error {
                    Some(e) => r == Err::<Vec<String>, OperationError>(e),
                    None => r is Ok && texts(r->Ok_0@) == rewritten.tokens,
                }
            }),
    {
        if !Self::is_valid_word_definition(tokens) {
            return Err(OperationError::InvalidWordFormat);
        }
        let ghost all = texts(tokens@);
        let ghost goal = rewrite_from(all, 0, old(self)@.words, Seq::empty());
        let mut transformed_tokens: Vec<String> = Vec::new();
        assert(texts(transformed_tokens@) =~= Seq::<Seq<char>>::empty());
        let mut i: usize = 0;
        while i < tokens.len()
            invariant
                i <= tokens@.len(),
                all == texts(tokens@),
                self.wf(),
                self@ == (CalculatorState { words: self@.words, ..old(self)@ }),
                well_formed_definitions(all),
                goal == rewrite_from(all, 0, old(self)@.words, Seq::empty()),
                goal == rewrite_from(all, i as nat, self@.words, texts(transformed_tokens@)),
            decreases tokens@.len() - i,
        {
            assert(all[i as int] == tokens@[i as int]@);
            if str_equal(tokens[i].as_str(), ":") {
                if i + 1 >= tokens.len() {
                    return Ok(transformed_tokens);
                }
                let word_name = &tokens[i + 1];
                assert(all[i + 1] == word_name@);
                if parse_i16(word_name.as_str()).is_some() {
                    return Err(OperationError::InvalidWord);
                }
                let ghost words = self@.words;
                let mut body: Vec<String> = Vec::new();
                let mut j: usize = i + 2;
                let mut open = true;
                assert(texts(body@) =~= tag_all(words, all.subrange(i + 2, j as int)));
                while open && j < tokens.len()
                    invariant
                        i + 2 <= j <= tokens@.len(),
                        all == texts(tokens@),
                        self.wf(),
                        self@.words == words,
                        texts(body@) == tag_all(words, all.subrange(i + 2, j as int)),
                        next_semicolon(all, i + 2) == next_semicolon(all, j as int),
                        !open ==> j < tokens@.len() && all[j as int] == semicolon(),
                    decreases
                            tokens@.len() - j + if open {
                                1int
                            } else {
                                0int
                            },
                {
                    assert(all[j as int] == tokens@[j as int]@);
                    if str_equal(tokens[j].as_str(), ";") {
                        open = false;
                    } else {
                        let mut def_token = tokens[j].clone();
                        self.append_word_version_suffix(&mut def_token);
                        proof {
                            lemma_texts_push(body@, def_token);
                            assert(tag_all(words, all.subrange(i + 2, j + 1)) =~= tag_all(
                                words,
                                all.subrange(i + 2, j as int),
                            ).push(tag_token(words, all[j as int])));
                        }
                        body.push(def_token);
                        j += 1;
                    }
                }
                proof {
                    lemma_next_semicolon_bounds(all, j as int);
                }
                self.word_registry.define_word(word_name.clone(), body);
                i = if j < tokens.len() {
                    j + 1
                } else {
                    j
                };
            } else {
                let mut token = tokens[i].clone();
                self.append_word_version_suffix(&mut token);
                proof {
                    lemma_texts_push(transformed_tokens@, token);
                }
                transformed_tokens.push(token);
                i += 1;
            }
        }
        Ok(transformed_tokens)
    }

    /// Whether a rewritten token can be evaluated.
    pub fn is_valid_token(&self, token: &str) -> (r: bool)
        ensures
            r == is_valid_token(self@.words, token@),
    {
        if str_equal(token, "if") || str_equal(token, "else") || str_equal(token, "then") {
            return true;
        }
        let defined = self.word_registry.words.len();
        assert(self.word_registry@.len() == defined);
        match read_shape(token) {
            Shape::Number(_) => true,
            Shape::Canonical(name) => OperationType::from_spelling(name.as_str()).is_some(),
            Shape::Versioned(name, position) => self.word_registry.has_version(
                name.as_str(),
                position,
            ),
            Shape::Other => false,
        }
    }

    /// Takes the definitions out of `tokens` and records them, and binds every
    /// token that is left to what it names where it stands. Tokens are matched
    /// in lower case; the text of a print-text token is kept as it is. On an
    /// error `tokens` is left as it was.
    pub fn extract_words(&mut self, tokens: &mut Vec<String>) -> (r: Result<(), OperationError>)
        requires
            old(self).wf(),
        ensures
            final(self).wf(),
            ({
                let rewritten = rewrite(old(self)@.words, normalize(texts(old(tokens)@)));
                &&& final(self)@ == (CalculatorState { words: rewritten.words, ..old(self)@ })
                &&& match rewritten.error {
                    Some(e) => r == Err::<(), OperationError>(e) && final(tokens)@ == old(
                        tokens,
                    )@,
                    None => r is Ok && texts(final(tokens)@) == rewritten.tokens,
                }
            }),
    {
        let normalized = Self::normalize_tokens(tokens.as_slice());
        match self.rewrite(normalized.as_slice()) {
            Ok(transformed_tokens) => {
                *tokens = transformed_tokens;
                Ok(())
            },
            Err(e) => Err(e),
        }
    }

    /// Rewrites `tokens` as `extract_words` does and checks that every token
    /// that is left can be evaluated. A token that cannot is refused with
    /// `WordNotFound`.
    pub fn are_valid_tokens(&mut self, tokens: &mut Vec<String>) -> (r: Result<
        (),
        OperationError,
    >)
        requires
            old(self).wf(),
        ensures
            final(self).wf(),
            ({
                let rewritten = rewrite(old(self)@.words, normalize(texts(old(tokens)@)));
                &&& final(self)@ == (CalculatorState { words: rewritten.words, ..old(self)@ })
                &&& match rewritten.error {
                    Some(e) => r == Err::<(), OperationError>(e) && final(tokens)@ == old(
                        tokens,
                    )@,
                    None => texts(final(tokens)@) == rewritten.tokens && if all_valid(
                        rewritten.words,
                        rewritten.tokens,
                    ) {
                        r is Ok
                    } else {
                        r == Err::<(), OperationError>(OperationError::WordNotFound)
                    },
                }
            }),
    {
        match self.extract_words(tokens) {
            Err(e) => {
                return Err(e);
            },
            Ok(()) => {},
        }
        if self.all_tokens_valid(tokens.as_slice()) {
            Ok(())
        } else {
            Err(OperationError::WordNotFound)
        }
    }

    /// Whether every one of the rewritten `tokens` can be evaluated.
    pub fn all_tokens_valid(&self, tokens: &[String]) -> (r: bool)
        ensures
            r == all_valid(self@.words, texts(tokens@)),
    {
        let mut i: usize = 0;
        while i < tokens.len()
            invariant
                i <= tokens@.len(),
                forall|k: int| 0 <= k < i ==> is_valid_token(self@.words, tokens@[k]@),
            decreases tokens@.len() - i,
        {
            if !self.is_valid_token(tokens[i].as_str()) {
                assert(texts(tokens@)[i as int] == tokens@[i as int]@);
                return false;
            }
            i += 1;
        }
        assert forall|k: int| 0 <= k < texts(tokens@).len() implies is_valid_token(
            self@.words,
            #[trigger] texts(tokens@)[k],
        ) by {
            assert(texts(tokens@)[k] == tokens@[k]@);
        }
        true
    }

    /// Appends the line that reports `error` to `output`.
    pub fn add_string_output_error(output: &mut String, error: OperationError)
        ensures
            final(output)@ == old(output)@ + error.rendered(),
    {
        let message = error.message();
        output.append(message.as_str());
    }

    /// Reports, behind what the last run printed, that the stack could not be
    /// written out.
    pub fn add_writing_error(&mut self)
        requires
            old(self).wf(),
        ensures
            final(self).wf(),
            final(self)@ == (CalculatorState {
                output: old(self)@.output + OperationError::FailWritingFile.rendered(),
                ..old(self)@
            }),
    {
        Self::add_string_output_error(&mut self.output, OperationError::FailWritingFile);
    }

    /// Runs a program given as tokens in the case in which they are matched:
    /// rewrites it, checks it and evaluates it against the stack. What it
    /// prints, with the error that stopped it, replaces the output.
    pub fn run_tokens(&mut self, tokens: &[String])
        requires
            old(self).wf(),
        ensures
            final(self).wf(),
            final(self)@ == run_tokens_result(old(self)@, texts(tokens@)),
            final(self)@.stack.len() <= final(self)@.capacity,
            final(self)@.capacity == old(self)@.capacity,
    {
        let mut output = String::new();
        match self.rewrite(tokens) {
            Err(error) => {
                Self::add_string_output_error(&mut output, error);
            },
            Ok(input_tokens) => {
                if !self.all_tokens_valid(input_tokens.as_slice()) {
                    Self::add_string_output_error(&mut output, OperationError::WordNotFound);
                } else {
                    let capacity = self.max_stack_size as usize;
                    let result = Self::process_tokens(
                        &self.word_registry,
                        input_tokens.as_slice(),
                        capacity,
                        &mut self.stack,
                        &mut output,
                    );
                    if let Err(error) = result {
                        Self::add_string_output_error(&mut output, error);
                    }
                }
            },
        }
        self.output = output;
    }

    /// Runs a source text: splits it into tokens, matches them whatever their
    /// case, rewrites, checks and evaluates the program. What it prints, with
    /// the error that stopped it, replaces the output.
    pub fn run(&mut self, content: String)
        requires
            old(self).wf(),
        ensures
            final(self).wf(),
            final(self)@ == run_result(old(self)@, content@),
            final(self)@.stack.len() <= final(self)@.capacity,
            final(self)@.capacity == old(self)@.capacity,
    {
        let input_tokens = tokenize(content.as_str());
        let normalized = Self::normalize_tokens(input_tokens.as_slice());
        self.run_tokens(normalized.as_slice());
    }

    /// Pushes a number, unless the stack is full.
    pub fn push_number(stack: &mut Vec<i16>, capacity: usize, number: i16) -> (r: Result<
        (),
        OperationError,
    >)
        requires
            old(stack)@.len() <= capacity,
        ensures
            final(stack)@.len() <= capacity,
            r is Ok <==> old(stack)@.len() < capacity,
            r is Ok ==> final(stack)@ == old(stack)@.push(number),
            r is Err ==> r == Err::<(), OperationError>(OperationError::StackOverflow)
                && final(stack)@ == old(stack)@,
    {
        if stack.len() >= capacity {
            return Err(OperationError::StackOverflow);
        }
        stack.push(number);
        Ok(())
    }

    /// Runs the built-in operation `op` on the stack and the output. `name` is
    /// the token that named the operation; a print-text token carries the text
    /// to print. An operation that would grow a full stack is refused with
    /// `StackOverflow`.
    pub fn execute_operation(
        op: OperationType,
        name: &str,
        capacity: usize,
        stack: &mut Vec<i16>,
        output: &mut String,
    ) -> (r: Result<(), OperationError>)
        requires
            old(stack)@.len() <= capacity,
        ensures
            agrees(
                r,
                final(stack)@,
                final(output)@,
                builtin_outcome(op, name@, capacity as int, old(stack)@, old(output)@),
            ),
            final(stack)@.len() <= capacity,
    {
        match op {
            OperationType::Add => arithmetic::Add.apply(stack),
            OperationType::Sub => arithmetic::Sub.apply(stack),
            OperationType::Mul => arithmetic::Mul.apply(stack),
            OperationType::Div => arithmetic::Div.apply(stack),
            OperationType::And => boolean::And.apply(stack),
            OperationType::Eq => boolean::Eq.apply(stack),
            OperationType::Greater => boolean::Greater.apply(stack),
            OperationType::Less => boolean::Less.apply(stack),
            OperationType::Not => boolean::Not.apply(stack),
            OperationType::Or => boolean::Or.apply(stack),
            OperationType::Drop => stack_manipulation::Drop.apply(stack),
            OperationType::Dup => {
                if stack.len() >= 1 && stack.len() >= capacity {
                    Err(OperationError::StackOverflow)
                } else {
                    stack_manipulation::Dup.apply(stack)
                }
            },
            OperationType::Over => {
                if stack.len() >= 2 && stack.len() >= capacity {
                    Err(OperationError::StackOverflow)
                } else {
                    stack_manipulation::Over.apply(stack)
                }
            },
            OperationType::Rot => stack_manipulation::Rot.apply(stack),
            OperationType::Swap => stack_manipulation::Swap.apply(stack),
            OperationType::Dot => output::Dot.apply(stack, output, name),
            OperationType::Cr => output::Cr.apply(stack, output, name),
            OperationType::PrintText => output::PrintText.apply(stack, output, name),
            OperationType::Emit => output::Emit.apply(stack, output, name),
        }
    }

    /// Evaluates one token that is not `if`, at `level`: pushes a number, runs
    /// a built-in operation, or runs the body of the definition that the token
    /// is bound to.
    pub fn process_single_token(
        registry: &WordRegistry,
        level: usize,
        token: &str,
        capacity: usize,
        stack: &mut Vec<i16>,
        output: &mut String,
    ) -> (r: Result<(), OperationError>)
        requires
            level <= registry@.len(),
            old(stack)@.len() <= capacity,
        ensures
            agrees(
                r,
                final(stack)@,
                final(output)@,
                step_outcome(
                    registry@,
                    level as nat,
                    token@,
                    capacity as int,
                    old(stack)@,
                    old(output)@,
                ),
            ),
            final(stack)@.len() <= capacity,
        decreases level, 0nat,
    {
        match read_shape(token) {
            Shape::Number(number) => Self::push_number(stack, capacity, number),
            Shape::Canonical(name) => match OperationType::from_spelling(name.as_str()) {
                Some(op) => Self::execute_operation(op, name.as_str(), capacity, stack, output),
                None => Err(OperationError::WordNotFound),
            },
            Shape::Versioned(name, position) => {
                if position < level && registry.has_version(name.as_str(), position) {
                    assert(registry@[position as int].body == texts(
                        registry.words@[position as int].body@,
                    ));
                    Self::process_word_tokens(
                        registry,
                        position,
                        registry.words[position].body.as_slice(),
                        capacity,
                        stack,
                        output,
                    )
                } else {
                    Err(OperationError::WordNotFound)
                }
            },
            Shape::Other => Err(OperationError::WordNotFound),
        }
    }

    /// Evaluates `tokens` at `level`: a token may run the definitions below
    /// that position and no others. Stops at the first error and returns it.
    pub fn process_word_tokens(
        registry: &WordRegistry,
        level: usize,
        tokens: &[String],
        capacity: usize,
        stack: &mut Vec<i16>,
        output: &mut String,
    ) -> (r: Result<(), OperationError>)
        requires
            level <= registry@.len(),
            old(stack)@.len() <= capacity,
        ensures
            agrees(
                r,
                final(stack)@,
                final(output)@,
                eval_from(
                    registry@,
                    level as nat,
                    texts(tokens@),
                    0,
                    capacity as int,
                    old(stack)@,
                    old(output)@,
                ),
            ),
            final(stack)@.len() <= capacity,
        decreases level, tokens@.len() + 1,
    {
        let ghost all = texts(tokens@);
        let ghost whole = eval_from(
            registry@,
            level as nat,
            all,
            0,
            capacity as int,
            old(stack)@,
            old(output)@,
        );
        let mut i: usize = 0;
        while i < tokens.len()
            invariant
                i <= tokens@.len(),
                all == texts(tokens@),
                level <= registry@.len(),
                stack@.len() <= capacity,
                whole == eval_from(
                    registry@,
                    level as nat,
                    all,
                    0,
                    capacity as int,
                    old(stack)@,
                    old(output)@,
                ),
                whole == eval_from(
                    registry@,
                    level as nat,
                    all,
                    i as nat,
                    capacity as int,
                    stack@,
                    output@,
                ),
            decreases tokens@.len() - i,
        {
            let token = tokens[i].as_str();
            assert(all[i as int] == token@);
            if str_equal(token, "if") {
                if stack.len() == 0 {
                    return Err(OperationError::StackUnderflow);
                }
                let ghost before = stack@;
                let cond = stack.pop().unwrap();
                match Conditional::extract_branch(tokens, i) {
                    Err(e) => {
                        return Err(e);
                    },
                    Ok((then_pos, if_branch, else_branch)) => {
                        proof {
                            lemma_branch_indices_bounds(all, i as int);
                            lemma_texts_subrange(tokens@, i + 1, then_pos as int);
                            if else_branch is Some {
                                let e = branch_indices(all, i as int)->Some_0.1->Some_0;
                                lemma_texts_subrange(tokens@, i + 1, e);
                                lemma_texts_subrange(tokens@, e + 1, then_pos as int);
                            }
                        }
                        let ghost extent = branch_indices(all, i as int)->Some_0;
                        let ghost taken = taken_branch(all, i as int, extent.0, extent.1, cond);
                        let ghost inner_outcome = eval_from(
                            registry@,
                            level as nat,
                            taken,
                            0,
                            capacity as int,
                            stack@,
                            output@,
                        );
                        proof {
                            assert(whole == if inner_outcome.error is Some {
                                inner_outcome
                            } else {
                                eval_from(
                                    registry@,
                                    level as nat,
                                    all,
                                    (then_pos + 1) as nat,
                                    capacity as int,
                                    inner_outcome.stack,
                                    inner_outcome.output,
                                )
                            });
                        }
                        if cond != 0 {
                            assert(texts(if_branch@) == taken);
                            let inner = Self::process_word_tokens(
                                registry,
                                level,
                                if_branch,
                                capacity,
                                stack,
                                output,
                            );
                            if inner.is_err() {
                                return inner;
                            }
                        } else if let Some(else_body) = else_branch {
                            assert(texts(else_body@) == taken);
                            let inner = Self::process_word_tokens(
                                registry,
                                level,
                                else_body,
                                capacity,
                                stack,
                                output,
                            );
                            if inner.is_err() {
                                return inner;
                            }
                        } else {
                            assert(taken.len() == 0);
                            assert(inner_outcome == done(stack@, output@));
                        }
                        i = then_pos + 1;
                    },
                }
            } else {
                let ghost stack_before = stack@;
                let ghost output_before = output@;
                let step = Self::process_single_token(
                    registry,
                    level,
                    token,
                    capacity,
                    stack,
                    output,
                );
                proof {
                    let outcome = step_outcome(
                        registry@,
                        level as nat,
                        all[i as int],
                        capacity as int,
                        stack_before,
                        output_before,
                    );
                    assert(whole == if outcome.error is Some {
                        outcome
                    } else {
                        eval_from(
                            registry@,
                            level as nat,
                            all,
                            (i + 1) as nat,
                            capacity as int,
                            outcome.stack,
                            outcome.output,
                        )
                    });
                }
                if step.is_err() {
                    return step;
                }
                i += 1;
            }
        }
        Ok(())
    }

    /// Evaluates the tokens of a program: every definition of the registry is
    /// in sight.
    pub fn process_tokens(
        registry: &WordRegistry,
        tokens: &[String],
        capacity: usize,
        stack: &mut Vec<i16>,
        output: &mut String,
    ) -> (r: Result<(), OperationError>)
        requires
            old(stack)@.len() <= capacity,
        ensures
            agrees(
                r,
                final(stack)@,
                final(output)@,
                eval_program(
                    registry@,
                    texts(tokens@),
                    capacity as int,
                    old(stack)@,
                    old(output)@,
                ),
            ),
            final(stack)@.len() <= capacity,
    {
        Self::process_word_tokens(registry, registry.words.len(), tokens, capacity, stack, output)
    }
}

} // verus!
