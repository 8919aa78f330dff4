//! Dot-separated keys, such as `devices.1.instances.0.commandClasses.32`.

use crate::json::strings_view;
use vstd::prelude::*;

verus! {

/// The pieces of `s` between its `sep` characters, in order: one more
/// than there are separators, with an empty piece between two adjacent
/// ones.
pub open spec fn split_on(s: Seq<char>, sep: char) -> Seq<Seq<char>>
    decreases s.len(),
{
    if s.len() == 0 {
        seq![Seq::empty()]
    } else {
        let rest = split_on(s.drop_last(), sep);
        if s.last() == sep {
            rest.push(Seq::empty())
        } else {
            rest.update(rest.len() - 1, rest.last().push(s.last()))
        }
    }
}

/// The pieces of `s` between its dots.
pub open spec fn split_dots(s: Seq<char>) -> Seq<Seq<char>> {
    split_on(s, '.')
}

/// There is always at least one piece.
pub proof fn lemma_split_on_nonempty(s: Seq<char>, sep: char)
    ensures
        split_on(s, sep).len() >= 1,
    decreases s.len(),
{
    if s.len() > 0 {
        lemma_split_on_nonempty(s.drop_last(), sep);
    }
}

/// Splits `key` at every dot, as [`split_dots`] says.
pub fn split_key(key: &str) -> (r: Vec<String>)
    ensures
        strings_view(r@) == split_dots(key@),
{
    split_at_char(key, '.')
}

/// Splits `key` at every `sep`, as [`split_on`] says.
pub fn split_at_char(key: &str, sep: char) -> (r: Vec<String>)
    ensures
        strings_view(r@) == split_on(key@, sep),
{
    let n = key.unicode_len();
    let mut parts: Vec<String> = Vec::new();
    let mut start: usize = 0;
    let mut i: usize = 0;
    assert(strings_view(parts@) =~= Seq::<Seq<char>>::empty());
    assert(key@.subrange(0, 0) =~= Seq::<char>::empty());
    assert(strings_view(parts@).push(key@.subrange(0, 0)) =~= seq![Seq::<char>::empty()]);
    while i < n
        invariant
            n == key@.len(),
            0 <= start <= i <= n,
            strings_view(parts@).push(key@.subrange(start as int, i as int)) == split_on(
                key@.subrange(0, i as int),
                sep,
            ),
        decreases n - i,
    {
        let ghost prefix = key@.subrange(0, i as int + 1);
        assert(prefix.drop_last() =~= key@.subrange(0, i as int));
        proof {
            lemma_split_on_nonempty(prefix.drop_last(), sep);
        }
        let c = key.get_char(i);
        if c == sep {
            let piece: String = key.substring_char(start, i).to_owned();
            parts.push(piece);
            assert(strings_view(parts@) =~= strings_view(parts@).drop_last().push(piece@));
            assert(key@.subrange(i as int + 1, i as int + 1) =~= Seq::<char>::empty());
            start = i + 1;
        } else {
            assert(key@.subrange(start as int, i as int + 1) =~= key@.subrange(
                start as int,
                i as int,
            ).push(c));
        }
        i = i + 1;
    }
    let last: String = key.substring_char(start, n).to_owned();
    parts.push(last);
    assert(key@.subrange(0, n as int) =~= key@);
    parts
}

/// The decimal digits.
pub open spec fn digits() -> Seq<char> {
    seq!['0', '1', '2', '3', '4', '5', '6', '7', '8', '9']
}

/// The decimal numeral of `n`, without leading zeros.
pub open spec fn decimal(n: nat) -> Seq<char>
    decreases n,
{
    if n < 10 {
        seq![digits()[n as int]]
    } else {
        decimal(n / 10).push(digits()[(n % 10) as int])
    }
}

/// The one-character string of the digit `d`.
fn digit_str(d: u8) -> (r: &'static str)
    requires
        d < 10,
    ensures
        r@ == seq![digits()[d as int]],
{
    proof {
        reveal_strlit("0");
        reveal_strlit("1");
        reveal_strlit("2");
        reveal_strlit("3");
        reveal_strlit("4");
        reveal_strlit("5");
        reveal_strlit("6");
        reveal_strlit("7");
        reveal_strlit("8");
        reveal_strlit("9");
    }
    let r = match d {
        0 => "0",
        1 => "1",
        2 => "2",
        3 => "3",
        4 => "4",
        5 => "5",
        6 => "6",
        7 => "7",
        8 => "8",
        _ => "9",
    };
    assert(r@ =~= seq![digits()[d as int]]);
    r
}

/// The decimal numeral of `n`.
pub fn decimal_string(n: u8) -> (r: String)
    ensures
        r@ == decimal(n as nat),
{
    if n < 10 {
        digit_str(n).to_owned()
    } else if n < 100 {
        let s = digit_str(n / 10).to_owned();
        let r = s.concat(digit_str(n % 10));
        assert(decimal(n as nat) == decimal((n / 10) as nat).push(digits()[(n % 10) as int]));
        assert(r@ =~= decimal(n as nat));
        r
    } else {
        let s = digit_str(n / 100).to_owned();
        let s = s.concat(digit_str((n / 10) % 10));
        let r = s.concat(digit_str(n % 10));
        assert(decimal((n / 10) as nat) == decimal((n / 100) as nat).push(
            digits()[((n / 10) % 10) as int],
        ));
        assert(r@ =~= decimal(n as nat));
        r
    }
}

} // verus!

