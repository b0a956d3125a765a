//! The shapes of a token once words are bound to their definitions: a number,
//! or a name with a tag behind its last underscore. The tag `c` marks a built-in
//! operation, a position marks the definition at that position.
use vstd::prelude::*;
use vstd::slice::slice_subrange;
use crate::number::{
    decimal,
    index_value,
    is_digit,
    is_index,
    is_number,
    lemma_decimal_denotes,
    lemma_index_round_trip,
    number_value,
    parse_i16,
    parse_index,
    push_decimal,
};
use crate::text::{chars_of, push_char, str_equal, string_of};

verus! {

/// The last position of `c` in `s`, if it occurs.
pub open spec fn last_index_of(s: Seq<char>, c: char) -> Option<int>
    decreases s.len(),
{
    if s.len() == 0 {
        None
    } else if s.last() == c {
        Some(s.len() - 1)
    } else {
        last_index_of(s.drop_last(), c)
    }
}

/// The tag of a built-in operation.
pub open spec fn canonical_tag() -> Seq<char> {
    "c"@
}

/// What a token is by its shape.
pub enum TokenShape {
    /// A number literal, with its value.
    Number(i16),
    /// A name tagged as a built-in operation.
    Canonical(Seq<char>),
    /// A name tagged with the position of a definition.
    Versioned(Seq<char>, nat),
    /// Anything else.
    Other,
}

/// The shape of a token: a number literal is a number; any other token is read
/// by what stands behind its last underscore, `c` or a position.
pub open spec fn shape_of(token: Seq<char>) -> TokenShape {
    if is_number(token) {
        TokenShape::Number(number_value(token))
    } else {
        match last_index_of(token, '_') {
            None => TokenShape::Other,
            Some(u) => {
                let name = token.take(u);
                let tag = token.skip(u + 1);
                if tag == canonical_tag() {
                    TokenShape::Canonical(name)
                } else if is_index(tag) {
                    TokenShape::Versioned(name, index_value(tag))
                } else {
                    TokenShape::Other
                }
            },
        }
    }
}

/// A token with the tag of a built-in operation.
pub open spec fn with_canonical_tag(token: Seq<char>) -> Seq<char> {
    token + seq!['_'] + canonical_tag()
}

/// A token with the position of a definition as its tag.
pub open spec fn with_version_tag(token: Seq<char>, position: nat) -> Seq<char> {
    token + seq!['_'] + decimal(position)
}

/// The shape of a token, as the interpreter holds it.
pub enum Shape {
    Number(i16),
    Canonical(String),
    Versioned(String, usize),
    Other,
}

impl Shape {
    /// Whether this value stands for `shape`. A position that the machine
    /// cannot hold stands as `Other`: no definition is that far out.
    pub open spec fn stands_for(self, shape: TokenShape) -> bool {
        match shape {
            TokenShape::Number(n) => self == Shape::Number(n),
            TokenShape::Canonical(name) => self is Canonical && self->Canonical_0@ == name,
            TokenShape::Versioned(name, k) => if k <= usize::MAX {
                self is Versioned && self->Versioned_0@ == name && self->Versioned_1 == k
            } else {
                self is Other
            },
            TokenShape::Other => self is Other,
        }
    }
}

/// The position of the last `c` in `cs`, if it occurs.
fn find_last(cs: &Vec<char>, c: char) -> (r: Option<usize>)
    ensures
        match last_index_of(cs@, c) {
            Some(u) => r == Some(u as usize) && 0 <= u < cs@.len(),
            None => r is None,
        },
        r is Some ==> r->Some_0 < cs@.len(),
{
    let mut i: usize = cs.len();
    assert(cs@.take(i as int) =~= cs@);
    while i > 0
        invariant
            i <= cs.len(),
            last_index_of(cs@, c) == last_index_of(cs@.take(i as int), c),
        decreases i,
    {
        assert(cs@.take(i as int).drop_last() =~= cs@.take(i - 1));
        if cs[i - 1] == c {
            return Some(i - 1);
        }
        i -= 1;
    }
    assert(cs@.take(0) =~= Seq::<char>::empty());
    None
}

/// Reads the shape of a token.
pub fn read_shape(token: &str) -> (r: Shape)
    ensures
        r.stands_for(shape_of(token@)),
{
    match parse_i16(token) {
        Some(n) => Shape::Number(n),
        None => {
            let cs = chars_of(token);
            match find_last(&cs, '_') {
                None => Shape::Other,
                Some(u) => {
                    let name = string_of(slice_subrange(cs.as_slice(), 0, u));
                    let tag = string_of(slice_subrange(cs.as_slice(), u + 1, cs.len()));
                    if str_equal(tag.as_str(), "c") {
                        Shape::Canonical(name)
                    } else {
                        match parse_index(tag.as_str()) {
                            Some(k) => Shape::Versioned(name, k),
                            None => Shape::Other,
                        }
                    }
                },
            }
        },
    }
}

/// Appends the tag of a built-in operation.
pub fn push_canonical_tag(token: &mut String)
    ensures
        final(token)@ == with_canonical_tag(old(token)@),
{
    push_char(token, '_');
    push_char(token, 'c');
    proof {
        reveal_strlit("c");
        assert(canonical_tag() =~= seq!['c']);
        assert(token@ =~= with_canonical_tag(old(token)@));
    }
}

/// Appends the position of a definition as a tag.
pub fn push_version_tag(token: &mut String, position: usize)
    ensures
        final(token)@ == with_version_tag(old(token)@, position as nat),
{
    push_char(token, '_');
    push_decimal(token, position as u64);
    assert(token@ =~= with_version_tag(old(token)@, position as nat));
}

/// In a text without `c`, appending characters does not move the last `c` of
/// what is appended.
proof fn lemma_last_index_of_suffix(head: Seq<char>, tail: Seq<char>, c: char)
    requires
        forall|i: int| 0 <= i < tail.len() ==> tail[i] != c,
    ensures
        last_index_of(head + seq![c] + tail, c) == Some(head.len() as int),
    decreases tail.len(),
{
    let all = head + seq![c] + tail;
    if tail.len() > 0 {
        assert(all.drop_last() =~= head + seq![c] + tail.drop_last());
        assert(all.last() == tail.last());
        lemma_last_index_of_suffix(head, tail.drop_last(), c);
    } else {
        assert(all.last() == c);
    }
}

/// A token tagged with a position is read as that token and that position.
pub proof fn lemma_version_tag_reads_back(token: Seq<char>, position: nat)
    ensures
        shape_of(with_version_tag(token, position)) == TokenShape::Versioned(token, position),
{
    let tagged = with_version_tag(token, position);
    lemma_decimal_denotes(position);
    lemma_index_round_trip(position);
    assert forall|i: int| 0 <= i < decimal(position).len() implies decimal(position)[i] != '_' by {
        assert(is_digit(decimal(position)[i]));
    }
    lemma_last_index_of_suffix(token, decimal(position), '_');
    assert(tagged.take(token.len() as int) =~= token);
    assert(tagged.skip(token.len() as int + 1) =~= decimal(position));
    assert(tagged[token.len() as int] == '_');
    assert(!is_digit('_'));
    lemma_tagged_is_no_number(token, decimal(position));
    reveal_strlit("c");
    assert(is_digit(decimal(position)[0]));
    assert(decimal(position) != canonical_tag());
}

/// A text with an underscore in it is no number literal.
pub proof fn lemma_tagged_is_no_number(head: Seq<char>, tail: Seq<char>)
    ensures
        !is_number(head + seq!['_'] + tail),
{
    let all = head + seq!['_'] + tail;
    let at = head.len() as int;
    assert(all[at] == '_');
    if is_number(all) {
        if all[0] == '-' || all[0] == '+' {
            assert(at >= 1);
            assert(all.skip(1)[at - 1] == '_');
        }
    }
}

/// A token tagged as built-in is read as that token, tagged as built-in.
pub proof fn lemma_canonical_tag_reads_back(token: Seq<char>)
    ensures
        shape_of(with_canonical_tag(token)) == TokenShape::Canonical(token),
{
    let tagged = with_canonical_tag(token);
    reveal_strlit("c");
    assert(canonical_tag() =~= seq!['c']);
    lemma_last_index_of_suffix(token, canonical_tag(), '_');
    assert(tagged.take(token.len() as int) =~= token);
    assert(tagged.skip(token.len() as int + 1) =~= canonical_tag());
    lemma_tagged_is_no_number(token, canonical_tag());
}

} // verus!
