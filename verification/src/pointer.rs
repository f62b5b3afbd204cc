//! Paths written as JSON Pointers (RFC 6901).
use vstd::prelude::*;
use crate::semantics::TokenView;
use crate::validator::{path_view, Token};

verus! {

/// `String::push` of std: the character is added at the end of the string.
pub assume_specification[ std::string::String::push ](s: &mut std::string::String, c: char)
    ensures
        final(s)@ == old(s)@.push(c),
;

/// The character that writes a digit.
pub open spec fn digit_char(d: nat) -> char {
    if d == 0 {
        '0'
    } else if d == 1 {
        '1'
    } else if d == 2 {
        '2'
    } else if d == 3 {
        '3'
    } else if d == 4 {
        '4'
    } else if d == 5 {
        '5'
    } else if d == 6 {
        '6'
    } else if d == 7 {
        '7'
    } else if d == 8 {
        '8'
    } else {
        '9'
    }
}

/// A number in decimal digits, without leading zeros.
pub open spec fn decimal(n: nat) -> Seq<char>
    decreases n,
{
    if n < 10 {
        seq![digit_char(n)]
    } else {
        decimal(n / 10).push(digit_char(n % 10))
    }
}

/// A character as a pointer writes it: `~0` for `~`, `~1` for `/`, and any
/// other character as it is.
pub open spec fn escaped_char(c: char) -> Seq<char> {
    if c == '~' {
        seq!['~', '0']
    } else if c == '/' {
        seq!['~', '1']
    } else {
        seq![c]
    }
}

/// A key as a pointer writes it, character by character.
pub open spec fn escaped(key: Seq<char>) -> Seq<char>
    decreases key.len(),
{
    if key.len() == 0 {
        Seq::empty()
    } else {
        escaped(key.drop_last()) + escaped_char(key.last())
    }
}

/// A token as a pointer writes it: a key escaped, a position in decimal.
pub open spec fn token_text(token: TokenView) -> Seq<char> {
    match token {
        TokenView::Key(key) => escaped(key),
        TokenView::Index(index) => decimal(index),
    }
}

/// A path as a pointer: each token after a `/`; the empty path is the empty
/// string.
pub open spec fn pointer_text(path: Seq<TokenView>) -> Seq<char>
    decreases path.len(),
{
    if path.len() == 0 {
        Seq::empty()
    } else {
        pointer_text(path.drop_last()).push('/') + token_text(path.last())
    }
}

/// Writes a digit.
fn digit(d: usize) -> (c: char)
    requires
        d < 10,
    ensures
        c == digit_char(d as nat),
{
    if d == 0 {
        '0'
    } else if d == 1 {
        '1'
    } else if d == 2 {
        '2'
    } else if d == 3 {
        '3'
    } else if d == 4 {
        '4'
    } else if d == 5 {
        '5'
    } else if d == 6 {
        '6'
    } else if d == 7 {
        '7'
    } else if d == 8 {
        '8'
    } else {
        '9'
    }
}

/// Adds a number in decimal digits to the text.
fn push_decimal(text: &mut String, n: usize)
    ensures
        final(text)@ == old(text)@ + decimal(n as nat),
    decreases n,
{
    if n >= 10 {
        push_decimal(text, n / 10);
    }
    text.push(digit(n % 10));
    assert(text@ =~= old(text)@ + decimal(n as nat));
}

/// Adds a key to the text as a pointer writes it.
fn push_escaped(text: &mut String, key: &str)
    ensures
        final(text)@ == old(text)@ + escaped(key@),
{
    broadcast use vstd::string::group_string_axioms;

    for c in it: key.chars()
        invariant
            it.seq() == key@,
            text@ == old(text)@ + escaped(key@.take(it.index())),
    {
        let ghost before = text@;
        let ghost i = it.index();
        if c == '~' {
            text.push('~');
            text.push('0');
        } else if c == '/' {
            text.push('~');
            text.push('1');
        } else {
            text.push(c);
        }
        assert(key@.take(i + 1).drop_last() =~= key@.take(i));
        assert(text@ =~= before + escaped_char(c));
        assert(text@ =~= old(text)@ + escaped(key@.take(i + 1)));
    }
    assert(key@.take(key@.len() as int) =~= key@);
}

/// Writes a path as a JSON Pointer: `/elements/2/a~1b` for the key
/// `elements`, the position 2 and the key `a/b`.
pub fn pointer(path: &Vec<Token>) -> (text: String)
    ensures
        text@ == pointer_text(path_view(path@)),
{
    let mut text = String::new();
    let mut i: usize = 0;
    while i < path.len()
        invariant
            i <= path.len(),
            text@ == pointer_text(path_view(path@).take(i as int)),
        decreases path.len() - i,
    {
        let ghost before = text@;
        text.push('/');
        match &path[i] {
            Token::Key(key) => {
                push_escaped(&mut text, key.as_str());
            },
            Token::Index(index) => {
                push_decimal(&mut text, *index);
            },
        }
        proof {
            let view = path_view(path@);
            assert(view.take(i + 1).drop_last() =~= view.take(i as int));
            assert(view.take(i + 1).last() == path@[i as int]@);
            assert(text@ =~= before.push('/') + token_text(path@[i as int]@));
        }
        i += 1;
    }
    assert(path_view(path@).take(i as int) =~= path_view(path@));
    text
}

} // verus!
