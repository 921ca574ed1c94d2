//! Pieces of text.
use itertools::Itertools;
use vstd::prelude::*;
use vstd::string::StringExecFns;

verus! {

/// A digit.
pub open spec fn digit(d: int) -> char {
    if d == 0 {
        '0'
    } else if d == 1 {
        '1'
    } else if d == 2 {
        '2'
    } else if d == 3 {
        '3'
    } else if d == 4 {
        '4'
    } else if d == 5 {
        '5'
    } else if d == 6 {
        '6'
    } else if d == 7 {
        '7'
    } else if d == 8 {
        '8'
    } else {
        '9'
    }
}

/// A number in decimal, without leading zeros.
pub open spec fn decimal_text(n: nat) -> Seq<char>
    decreases n,
{
    if n < 10 {
        seq![digit(n as int)]
    } else {
        decimal_text(n / 10).push(digit((n % 10) as int))
    }
}

/// The pieces one after the other, with `sep` between them.
pub open spec fn joined(pieces: Seq<Seq<char>>, sep: Seq<char>) -> Seq<char>
    decreases pieces.len(),
{
    if pieces.len() == 0 {
        Seq::empty()
    } else if pieces.len() == 1 {
        pieces[0]
    } else {
        joined(pieces.drop_last(), sep) + sep + pieces.last()
    }
}

/// The texts of strings.
pub open spec fn texts(pieces: Seq<String>) -> Seq<Seq<char>> {
    pieces.map_values(|s: String| s@)
}

/// `itertools::Itertools::join`, over strings: all elements in one string, with the separator
/// between them.
#[verifier::external_body]
pub(crate) fn join_strings(pieces: &Vec<String>, sep: &str) -> (r: String)
    ensures
        r@ == joined(texts(pieces@), sep@),
{
    pieces.iter().join(sep)
}

fn push_digit(out: &mut String, d: u64)
    requires
        d < 10,
    ensures
        final(out)@ == old(out)@.push(digit(d as int)),
{
    proof {
        reveal_strlit("0");
        reveal_strlit("1");
        reveal_strlit("2");
        reveal_strlit("3");
        reveal_strlit("4");
        reveal_strlit("5");
        reveal_strlit("6");
        reveal_strlit("7");
        reveal_strlit("8");
        reveal_strlit("9");
    }
    if d == 0 {
        out.append("0");
    } else if d == 1 {
        out.append("1");
    } else if d == 2 {
        out.append("2");
    } else if d == 3 {
        out.append("3");
    } else if d == 4 {
        out.append("4");
    } else if d == 5 {
        out.append("5");
    } else if d == 6 {
        out.append("6");
    } else if d == 7 {
        out.append("7");
    } else if d == 8 {
        out.append("8");
    } else {
        out.append("9");
    }
    assert(out@ =~= old(out)@.push(digit(d as int)));
}

/// Appends a number in decimal.
pub fn push_decimal(out: &mut String, n: u64)
    ensures
        final(out)@ == old(out)@ + decimal_text(n as nat),
    decreases n,
{
    if n >= 10 {
        push_decimal(out, n / 10);
    }
    push_digit(out, n % 10);
    assert(out@ =~= old(out)@ + decimal_text(n as nat));
}

/// The number that digits denote, by the codes of the characters.
pub open spec fn number_of(text: Seq<char>) -> int
    decreases text.len(),
{
    if text.len() == 0 {
        0
    } else {
        10 * number_of(text.drop_last()) + (text.last() as int - 48)
    }
}

/// A number in decimal is made of digits, denotes the number, and begins with a zero only where it
/// is zero.
pub proof fn decimal_text_denotes_the_number(n: nat)
    ensures
        number_of(decimal_text(n)) == n,
        decimal_text(n).len() > 0,
        forall|i: int|
            #![trigger decimal_text(n)[i]]
            0 <= i < decimal_text(n).len() ==> 48 <= decimal_text(n)[i] as int <= 57,
        decimal_text(n)[0] as int == 48 ==> n == 0 && decimal_text(n).len() == 1,
    decreases n,
{
    let t = decimal_text(n);
    if n < 10 {
        assert(t.drop_last() =~= Seq::empty());
        assert(number_of(t.drop_last()) == 0);
    } else {
        decimal_text_denotes_the_number(n / 10);
        assert(t.drop_last() =~= decimal_text(n / 10));
        assert forall|i: int| #![trigger t[i]] 0 <= i < t.len() implies 48 <= t[i] as int <= 57 by {
            if i < t.len() - 1 {
                assert(t[i] == decimal_text(n / 10)[i]);
            }
        }
        assert(t[0] == decimal_text(n / 10)[0]);
    }
}

/// The parts of a text, read from its beginning: each part but the last is followed by `sep`.
pub open spec fn is_list(text: Seq<char>, parts: Seq<Seq<char>>, sep: Seq<char>) -> bool
    decreases parts.len(),
{
    if parts.len() == 0 {
        text.len() == 0
    } else if parts.len() == 1 {
        text == parts[0]
    } else {
        &&& (parts[0] + sep).is_prefix_of(text)
        &&& is_list(text.skip((parts[0] + sep).len() as int), parts.drop_first(), sep)
    }
}

proof fn lemma_joined_front(parts: Seq<Seq<char>>, sep: Seq<char>)
    requires
        parts.len() > 1,
    ensures
        joined(parts, sep) == parts[0] + sep + joined(parts.drop_first(), sep),
    decreases parts.len(),
{
    let (front, rest) = (parts.drop_last(), parts.drop_first());
    if parts.len() == 2 {
        assert(joined(front, sep) == parts[0]);
        assert(joined(rest, sep) == parts[1]);
    } else {
        lemma_joined_front(front, sep);
        assert(front.drop_first() =~= rest.drop_last());
        assert(joined(parts, sep) =~= parts[0] + sep + joined(rest, sep));
    }
}

/// Joining pieces gives the list of the pieces.
pub proof fn joined_pieces_are_a_list(parts: Seq<Seq<char>>, sep: Seq<char>)
    ensures
        is_list(joined(parts, sep), parts, sep),
    decreases parts.len(),
{
    if parts.len() > 1 {
        lemma_joined_front(parts, sep);
        joined_pieces_are_a_list(parts.drop_first(), sep);
        let (text, head) = (joined(parts, sep), parts[0] + sep);
        assert(text.take(head.len() as int) =~= head);
        assert(text.skip(head.len() as int) =~= joined(parts.drop_first(), sep));
    }
}

/// `part` stands at place `at` of the text.
pub open spec fn stands_at(text: Seq<char>, part: Seq<char>, at: int) -> bool {
    0 <= at && at + part.len() <= text.len() && text.subrange(at, at + part.len()) == part
}

/// Each part of a list stands somewhere in its text.
pub proof fn list_parts_occur(
    text: Seq<char>,
    parts: Seq<Seq<char>>,
    sep: Seq<char>,
    i: int,
) -> (at: int)
    requires
        is_list(text, parts, sep),
        0 <= i < parts.len(),
    ensures
        stands_at(text, parts[i], at),
    decreases parts.len(),
{
    if parts.len() == 1 {
        assert(text.subrange(0, text.len() as int) =~= text);
        0
    } else {
        let head = parts[0] + sep;
        assert(text.take(head.len() as int) == head);
        if i == 0 {
            assert(text.subrange(0, parts[0].len() as int) =~= head.take(parts[0].len() as int));
            assert(head.take(parts[0].len() as int) =~= parts[0]);
            0
        } else {
            let rest = text.skip(head.len() as int);
            let at = list_parts_occur(rest, parts.drop_first(), sep, i - 1);
            let here = at + head.len();
            assert(text.subrange(here, here + parts[i].len()) =~= rest.subrange(
                at,
                at + parts[i].len(),
            ));
            here
        }
    }
}

} // verus!
