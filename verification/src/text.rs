//! Text cut into pieces at a separating character.

use crate::algebra::columns;
use crate::scalar::Token;
use vstd::prelude::*;

verus! {

/// The characters of `text`, in order.
pub fn characters(text: &str) -> (r: Vec<char>)
    ensures
        r@ == text@,
{
    let mut out: Vec<char> = Vec::new();
    let mut rest = text.chars();
    loop
        invariant
            vstd::std_specs::iter::IteratorSpec::obeys_prophetic_iter_laws(&rest),
            text@ == out@ + vstd::std_specs::iter::IteratorSpec::remaining(&rest),
            vstd::std_specs::iter::IteratorSpec::decrease(&rest) is Some,
        decreases vstd::std_specs::iter::IteratorSpec::decrease(&rest).unwrap(),
    {
        let ghost before = rest;
        let next = rest.next();
        proof {
            vstd::string::next_postcondition(&before, &rest, next);
        }
        match next {
            Some(c) => {
                assert(out@.push(c) + vstd::std_specs::iter::IteratorSpec::remaining(&rest) =~= out@ + vstd::std_specs::iter::IteratorSpec::remaining(&before));
                out.push(c);
            },
            None => {
                assert(out@ + vstd::std_specs::iter::IteratorSpec::remaining(&rest) =~= out@);
                return out;
            },
        }
    }
}

/// Appends `c` to `s`.
///
/// Trusted: `String::push` of the standard library appends the one character
/// and changes nothing else.
#[verifier::external_body]
pub(crate) fn push_char(s: &mut String, c: char)
    ensures
        final(s)@ == old(s)@.push(c),
{
    s.push(c);
}

/// The number of characters of `s` before the first `sep`; the length
/// of `s` where it holds none.
pub open spec fn piece_len(s: Seq<char>, sep: char) -> nat
    decreases s.len(),
{
    if s.len() == 0 || s[0] == sep {
        0
    } else {
        1 + piece_len(s.drop_first(), sep)
    }
}

/// The pieces of `s` between the occurrences of `sep`: one more piece than
/// there are occurrences, some of them empty where two occurrences meet or one
/// stands at an end.
pub open spec fn pieces(s: Seq<char>, sep: char) -> Seq<Seq<char>>
    decreases s.len(),
{
    let n = piece_len(s, sep);
    if n >= s.len() {
        seq![s]
    } else {
        seq![s.subrange(0, n as int)] + pieces(s.subrange(n as int + 1, s.len() as int), sep)
    }
}

/// A stretch of `n` characters without `sep`, followed by `sep` or by the
/// end, is the first piece.
pub proof fn lemma_piece_found(s: Seq<char>, sep: char, n: nat)
    requires
        n <= s.len(),
        forall|i: int| 0 <= i < n ==> s[i] != sep,
        n < s.len() ==> s[n as int] == sep,
    ensures
        piece_len(s, sep) == n,
    decreases n,
{
    if n == 0 {
    } else {
        let t = s.drop_first();
        assert forall|i: int| 0 <= i < n - 1 implies t[i] != sep by {
            assert(t[i] == s[i + 1]);
        }
        lemma_piece_found(t, sep, (n - 1) as nat);
    }
}

/// The pieces of `text` between the occurrences of `sep`.
pub fn split(text: &[char], sep: char) -> (r: Vec<Vec<char>>)
    ensures
        columns(r) == pieces(text@, sep),
{
    let mut out: Vec<Vec<char>> = Vec::new();
    let mut piece: Vec<char> = Vec::new();
    let mut start: usize = 0;
    let mut i: usize = 0;
    assert(text@.subrange(0, text.len() as int) =~= text@);
    assert(columns(out) + pieces(text@, sep) =~= pieces(text@, sep));
    while i < text.len()
        invariant
            start <= i <= text.len(),
            piece@ == text@.subrange(start as int, i as int),
            forall|k: int| start <= k < i ==> text@[k] != sep,
            pieces(text@, sep) == columns(out) + pieces(text@.subrange(start as int, text.len() as int), sep),
        decreases text.len() - i,
    {
        let c = text[i];
        if c == sep {
            proof {
                let rest = text@.subrange(start as int, text.len() as int);
                lemma_piece_found(rest, sep, (i - start) as nat);
                assert(rest.subrange(0, i - start) =~= piece@);
                assert(rest.subrange(i - start + 1, rest.len() as int) =~= text@.subrange(
                    i + 1,
                    text.len() as int,
                ));
                assert(columns(out).push(piece@) + pieces(text@.subrange(i + 1, text.len() as int), sep)
                    =~= columns(out) + (seq![piece@] + pieces(
                    text@.subrange(i + 1, text.len() as int),
                    sep,
                )));
            }
            let ghost before = columns(out);
            let ghost done = piece@;
            out.push(piece);
            assert(columns(out) =~= before.push(done));
            piece = Vec::new();
            start = i + 1;
            assert(piece@ =~= text@.subrange(start as int, i + 1));
        } else {
            piece.push(c);
            assert(piece@ =~= text@.subrange(start as int, i + 1));
        }
        i += 1;
    }
    proof {
        let rest = text@.subrange(start as int, text.len() as int);
        lemma_piece_found(rest, sep, rest.len());
        assert(rest =~= piece@);
        assert(pieces(rest, sep) =~= seq![piece@]);
    }
    let ghost before = columns(out);
    let ghost done = piece@;
    out.push(piece);
    assert(columns(out) =~= before.push(done));
    assert(before.push(done) =~= before + seq![done]);
    out
}

/// Whether each of `tokens` stands for an element.
pub open spec fn all_parsed<T: Token>(tokens: Seq<Seq<char>>) -> bool {
    forall|i: int| 0 <= i < tokens.len() ==> T::parsed(#[trigger] tokens[i]) is Some
}

/// Whether token `i` stands for no element, and each token before it for
/// one.
pub open spec fn first_unparsed<T: Token>(tokens: Seq<Seq<char>>, i: int) -> bool {
    &&& 0 <= i < tokens.len()
    &&& T::parsed(tokens[i]) is None
    &&& forall|k: int| 0 <= k < i ==> T::parsed(#[trigger] tokens[k]) is Some
}

/// The elements that `tokens` stand for.
pub open spec fn elements<T: Token>(tokens: Seq<Seq<char>>) -> Seq<T>
    recommends
        all_parsed::<T>(tokens),
{
    Seq::new(tokens.len(), |i: int| T::parsed(tokens[i]).unwrap())
}

/// The tokens of a vector: the pieces of `text` between spaces.
pub open spec fn vector_tokens(text: Seq<char>) -> Seq<Seq<char>> {
    pieces(text, ' ')
}

/// The tokens of column `c` of a matrix: the pieces between spaces of
/// piece `c` of `text` between semicolons.
pub open spec fn column_tokens(text: Seq<char>, c: int) -> Seq<Seq<char>> {
    pieces(pieces(text, ';')[c], ' ')
}

/// Whether each token of each column of the text of a matrix stands for an
/// element.
pub open spec fn all_columns_parsed<T: Token>(text: Seq<char>) -> bool {
    forall|c: int| 0 <= c < pieces(text, ';').len() ==> all_parsed::<T>(#[trigger] column_tokens(text, c))
}

/// Whether token `token` of column `column` stands for no element, and each
/// token before it, in that column and in those before it, for one.
pub open spec fn first_unparsed_at<T: Token>(text: Seq<char>, column: int, token: int) -> bool {
    &&& 0 <= column < pieces(text, ';').len()
    &&& forall|c: int| 0 <= c < column ==> all_parsed::<T>(#[trigger] column_tokens(text, c))
    &&& first_unparsed::<T>(column_tokens(text, column), token)
}

/// The columns that the text of a matrix stands for.
pub open spec fn parsed_columns<T: Token>(text: Seq<char>) -> Seq<Seq<T>>
    recommends
        all_columns_parsed::<T>(text),
{
    Seq::new(pieces(text, ';').len(), |c: int| elements::<T>(column_tokens(text, c)))
}

/// The elements that `tokens` stand for, or the index of the first token
/// that stands for none.
pub fn parse_tokens<T: Token>(tokens: &Vec<Vec<char>>) -> (r: Result<Vec<T>, usize>)
    ensures
        all_parsed::<T>(columns(*tokens)) ==> r is Ok && r->Ok_0@ == elements::<T>(columns(*tokens)),
        !all_parsed::<T>(columns(*tokens)) ==> r is Err && first_unparsed::<T>(
            columns(*tokens),
            r->Err_0 as int,
        ),
{
    let mut out: Vec<T> = Vec::with_capacity(tokens.len());
    let mut i: usize = 0;
    while i < tokens.len()
        invariant
            i <= tokens.len(),
            out.len() == i,
            forall|k: int| 0 <= k < i ==> T::parsed(#[trigger] columns(*tokens)[k]) == Some(out[k]),
        decreases tokens.len() - i,
    {
        match T::parse(tokens[i].as_slice()) {
            Some(x) => {
                out.push(x);
            },
            None => {
                assert(T::parsed(columns(*tokens)[i as int]) is None);
                return Err(i);
            },
        }
        i += 1;
    }
    assert(out@ =~= elements::<T>(columns(*tokens)));
    Ok(out)
}

} // verus!
