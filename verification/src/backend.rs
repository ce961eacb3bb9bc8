//! The backend capability: how a SQL backend renders a positional
//! placeholder, and how a `LIMIT`/`OFFSET` clause is attached to a query.

use vstd::prelude::*;

verus! {

/// The character for one decimal digit.
pub open spec fn digit_char(d: int) -> char {
    if d == 0 {
        '0'
    } else if d == 1 {
        '1'
    } else if d == 2 {
        '2'
    } else if d == 3 {
        '3'
    } else if d == 4 {
        '4'
    } else if d == 5 {
        '5'
    } else if d == 6 {
        '6'
    } else if d == 7 {
        '7'
    } else if d == 8 {
        '8'
    } else {
        '9'
    }
}

/// The decimal digits of `n`, most significant first.
pub open spec fn dec_of(n: int) -> Seq<char>
    recommends
        0 <= n,
    decreases n,
{
    if n < 10 {
        seq![digit_char(n)]
    } else {
        dec_of(n / 10).push(digit_char(n % 10))
    }
}

/// The text of one decimal digit.
fn digit_str(d: u8) -> (r: &'static str)
    requires
        d < 10,
    ensures
        r@ == seq![digit_char(d as int)],
{
    proof {
        reveal_strlit("0");
        reveal_strlit("1");
        reveal_strlit("2");
        reveal_strlit("3");
        reveal_strlit("4");
        reveal_strlit("5");
        reveal_strlit("6");
        reveal_strlit("7");
        reveal_strlit("8");
        reveal_strlit("9");
    }
    match d {
        0 => "0",
        1 => "1",
        2 => "2",
        3 => "3",
        4 => "4",
        5 => "5",
        6 => "6",
        7 => "7",
        8 => "8",
        _ => "9",
    }
}

/// Renders a nonnegative integer in decimal.
pub fn format_index(n: i64) -> (r: String)
    requires
        0 <= n,
    ensures
        r@ == dec_of(n as int),
    decreases n,
{
    let d: u8 = (n % 10) as u8;
    if n < 10 {
        String::from_str(digit_str(d))
    } else {
        let mut s = format_index(n / 10);
        s.append(digit_str(d));
        s
    }
}

/// Decimal text is never empty and never holds the marker character.
pub proof fn lemma_dec_no_dollar(n: int)
    ensures
        dec_of(n).len() > 0,
        forall|i: int| 0 <= i < dec_of(n).len() ==> dec_of(n)[i] != '$',
    decreases n,
{
    if n < 10 {
        assert(digit_char(n) != '$');
    } else {
        lemma_dec_no_dollar(n / 10);
        let d = dec_of(n);
        let prev = dec_of(n / 10);
        assert(digit_char(n % 10) != '$');
        assert forall|i: int| 0 <= i < d.len() implies d[i] != '$' by {
            if i < prev.len() {
                assert(d[i] == prev[i]);
            } else {
                assert(d[i] == digit_char(n % 10));
            }
        }
    }
}

/// The `LIMIT`/`OFFSET`-equivalent fragment, with its two
/// backend-neutral placeholder markers still in place: one for the
/// offset, one for the limit.
pub open spec fn limit_fragment() -> Seq<char> {
    " LIMIT $$, $$"@
}

/// A SQL backend's statement-preparation conventions. The only
/// backend-specific rule is how a 1-based positional placeholder is
/// rendered in statement text.
pub trait QueryPrepare {
    /// The text that `placeholder` renders for `index`.
    spec fn placeholder_spec(index: int) -> Seq<char>;

    /// Renders the backend's placeholder for the 1-based argument
    /// position `index`.
    fn placeholder(index: i64) -> (r: String)
        requires
            0 <= index,
        ensures
            r@ == Self::placeholder_spec(index as int),
    ;

}

/// A backend whose placeholders carry no index: every placeholder is
/// rendered as `?`.
pub struct UnindexedBackend;

impl QueryPrepare for UnindexedBackend {
    open spec fn placeholder_spec(index: int) -> Seq<char> {
        "?"@
    }

    fn placeholder(index: i64) -> (r: String) {
        String::from_str("?")
    }
}

/// A backend with numbered placeholders: position `index` is rendered
/// as `$` followed by the index in decimal.
pub struct NumberedBackend;

impl QueryPrepare for NumberedBackend {
    open spec fn placeholder_spec(index: int) -> Seq<char> {
        "$"@ + dec_of(index)
    }

    fn placeholder(index: i64) -> (r: String) {
        let mut s = String::from_str("$");
        let digits = format_index(index);
        s.append(digits.as_str());
        s
    }
}

} // verus!
