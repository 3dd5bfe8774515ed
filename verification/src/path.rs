//! JSON-Pointer-shaped path construction.
//!
//! Every codec entry locates its node by a `#`-rooted, slash-separated
//! path.  Segments escape `~` as `~0` and `/` as `~1`, as JSON Pointer
//! prescribes, so a path always parses back into its segments.

use vstd::prelude::*;

verus! {

/// How one character of a segment appears in a path.
pub open spec fn escape_char(c: char) -> Seq<char> {
    if c == '~' {
        seq!['~', '0']
    } else if c == '/' {
        seq!['~', '1']
    } else {
        seq![c]
    }
}

/// A segment with every character escaped.
pub open spec fn escaped(s: Seq<char>) -> Seq<char>
    decreases s,
{
    if s.len() == 0 {
        Seq::empty()
    } else {
        escaped(s.drop_last()) + escape_char(s.last())
    }
}

/// A path extended by one escaped segment.
pub open spec fn joined(path: Seq<char>, seg: Seq<char>) -> Seq<char> {
    path + seq!['/'] + escaped(seg)
}

/// Decimal digit characters.
pub open spec fn digit_char(d: nat) -> char {
    if d == 0 {
        '0'
    } else if d == 1 {
        '1'
    } else if d == 2 {
        '2'
    } else if d == 3 {
        '3'
    } else if d == 4 {
        '4'
    } else if d == 5 {
        '5'
    } else if d == 6 {
        '6'
    } else if d == 7 {
        '7'
    } else if d == 8 {
        '8'
    } else {
        '9'
    }
}

/// The decimal writing of a natural number.
pub open spec fn dec_str(n: nat) -> Seq<char>
    decreases n,
{
    if n < 10 {
        seq![digit_char(n)]
    } else {
        dec_str(n / 10) + seq![digit_char(n % 10)]
    }
}

/// One decimal digit as a string.
fn digit_str(d: usize) -> (r: &'static str)
    requires
        d < 10,
    ensures
        r@ == seq![digit_char(d as nat)],
{
    proof {
        reveal_strlit("0");
        reveal_strlit("1");
        reveal_strlit("2");
        reveal_strlit("3");
        reveal_strlit("4");
        reveal_strlit("5");
        reveal_strlit("6");
        reveal_strlit("7");
        reveal_strlit("8");
        reveal_strlit("9");
    }
    if d == 0 {
        "0"
    } else if d == 1 {
        "1"
    } else if d == 2 {
        "2"
    } else if d == 3 {
        "3"
    } else if d == 4 {
        "4"
    } else if d == 5 {
        "5"
    } else if d == 6 {
        "6"
    } else if d == 7 {
        "7"
    } else if d == 8 {
        "8"
    } else {
        "9"
    }
}

/// Writes a number in decimal.
pub fn usize_to_string(n: usize) -> (r: String)
    ensures
        r@ == dec_str(n as nat),
    decreases n,
{
    if n < 10 {
        String::from_str(digit_str(n))
    } else {
        let mut r = usize_to_string(n / 10);
        r.append(digit_str(n % 10));
        r
    }
}

/// Extends a path by one escaped segment.
pub fn path_join(path: &str, seg: &str) -> (r: String)
    ensures
        r@ == joined(path@, seg@),
{
    proof {
        reveal_strlit("/");
        reveal_strlit("~0");
        reveal_strlit("~1");
    }
    let mut out = String::from_str(path);
    out.append("/");
    let n = seg.unicode_len();
    let mut i: usize = 0;
    while i < n
        invariant
            i <= n,
            n == seg@.len(),
            ("/")@ =~= seq!['/'],
            ("~0")@ =~= seq!['~', '0'],
            ("~1")@ =~= seq!['~', '1'],
            out@ == path@ + seq!['/'] + escaped(seg@.take(i as int)),
        decreases n - i,
    {
        let c = seg.get_char(i);
        proof {
            assert(seg@.take(i + 1).drop_last() =~= seg@.take(i as int));
            assert(seg@.take(i + 1).last() == seg@[i as int]);
        }
        if c == '~' {
            out.append("~0");
        } else if c == '/' {
            out.append("~1");
        } else {
            let piece = seg.substring_char(i, i + 1);
            proof {
                assert(piece@ =~= seq![seg@[i as int]]);
            }
            out.append(piece);
        }
        i += 1;
    }
    proof {
        assert(seg@.take(n as int) =~= seg@);
    }
    out
}

/// Extends a path by a numeric index segment.
pub fn path_join_index(path: &str, idx: usize) -> (r: String)
    ensures
        r@ == joined(path@, dec_str(idx as nat)),
{
    let seg = usize_to_string(idx);
    path_join(path, seg.as_str())
}

/// The value of one decimal digit character.
pub open spec fn digit_val(c: char) -> Option<nat> {
    if c == '0' {
        Some(0nat)
    } else if c == '1' {
        Some(1nat)
    } else if c == '2' {
        Some(2nat)
    } else if c == '3' {
        Some(3nat)
    } else if c == '4' {
        Some(4nat)
    } else if c == '5' {
        Some(5nat)
    } else if c == '6' {
        Some(6nat)
    } else if c == '7' {
        Some(7nat)
    } else if c == '8' {
        Some(8nat)
    } else if c == '9' {
        Some(9nat)
    } else {
        None
    }
}

/// The number a decimal writing denotes, if every character is a digit.
pub open spec fn parse_dec(s: Seq<char>) -> Option<nat>
    decreases s,
{
    if s.len() == 0 {
        None
    } else if s.len() == 1 {
        digit_val(s[0])
    } else {
        match (parse_dec(s.drop_last()), digit_val(s.last())) {
            (Some(h), Some(d)) => Some(h * 10 + d),
            _ => None,
        }
    }
}

/// Law: parsing the decimal writing of a number yields the number.
pub proof fn lemma_dec_round_trip(n: nat)
    ensures
        parse_dec(dec_str(n)) == Some(n),
    decreases n,
{
    if n < 10 {
        assert(dec_str(n).len() == 1);
        assert(dec_str(n)[0] == digit_char(n));
        assert(digit_val(digit_char(n)) == Some(n));
    } else {
        lemma_dec_round_trip(n / 10);
        assert(dec_str(n) == dec_str(n / 10) + seq![digit_char(n % 10)]);
        assert(dec_str(n).drop_last() =~= dec_str(n / 10));
        assert(dec_str(n).last() == digit_char(n % 10));
        assert(dec_str(n).len() == dec_str(n / 10).len() + 1);
        assert(dec_str(n / 10).len() >= 1) by {
            lemma_dec_str_len(n / 10);
        }
        assert(digit_val(digit_char(n % 10)) == Some(n % 10));
        assert(n / 10 * 10 + n % 10 == n) by (nonlinear_arith);
    }
}

/// A decimal writing has at least one character.
pub proof fn lemma_dec_str_len(n: nat)
    ensures
        dec_str(n).len() >= 1,
    decreases n,
{
    if n >= 10 {
        lemma_dec_str_len(n / 10);
    }
}

} // verus!
