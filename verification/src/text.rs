//! Text helpers: decimal rendering, ASCII case folding and query strings.
use vstd::prelude::*;
use vstd::string::*;

verus! {

/// The decimal digit character for `d`, where `d < 10`.
pub open spec fn digit_char(d: nat) -> char {
    if d == 0 {
        '0'
    } else if d == 1 {
        '1'
    } else if d == 2 {
        '2'
    } else if d == 3 {
        '3'
    } else if d == 4 {
        '4'
    } else if d == 5 {
        '5'
    } else if d == 6 {
        '6'
    } else if d == 7 {
        '7'
    } else if d == 8 {
        '8'
    } else {
        '9'
    }
}

/// The decimal rendering of `n`, without sign or leading zeros.
pub open spec fn decimal_text(n: nat) -> Seq<char>
    decreases n,
{
    if n < 10 {
        seq![digit_char(n)]
    } else {
        decimal_text(n / 10).push(digit_char(n % 10))
    }
}

fn digit_str(d: u64) -> (s: &'static str)
    requires
        d < 10,
    ensures
        s@ == seq![digit_char(d as nat)],
{
    proof {
        reveal_strlit("0");
        reveal_strlit("1");
        reveal_strlit("2");
        reveal_strlit("3");
        reveal_strlit("4");
        reveal_strlit("5");
        reveal_strlit("6");
        reveal_strlit("7");
        reveal_strlit("8");
        reveal_strlit("9");
    }
    if d == 0 {
        "0"
    } else if d == 1 {
        "1"
    } else if d == 2 {
        "2"
    } else if d == 3 {
        "3"
    } else if d == 4 {
        "4"
    } else if d == 5 {
        "5"
    } else if d == 6 {
        "6"
    } else if d == 7 {
        "7"
    } else if d == 8 {
        "8"
    } else {
        "9"
    }
}

/// Renders `n` in decimal, as `Display` does for unsigned integers.
pub fn decimal(n: u64) -> (s: String)
    ensures
        s@ == decimal_text(n as nat),
    decreases n,
{
    if n < 10 {
        String::from_str(digit_str(n))
    } else {
        let head = decimal(n / 10);
        head.concat(digit_str(n % 10))
    }
}


/// ASCII case folding of one character: `A`..=`Z` become `a`..=`z`,
/// every other character is left as it is.
pub open spec fn ascii_lower(c: char) -> char {
    if 65 <= (c as u32) <= 90 {
        ((c as u32) + 32) as char
    } else {
        c
    }
}

/// ASCII case folding of a whole text.
pub open spec fn ascii_lower_text(s: Seq<char>) -> Seq<char> {
    s.map_values(|c: char| ascii_lower(c))
}

fn lower_code(c: char) -> (r: u32)
    ensures
        r == ascii_lower(c) as u32,
{
    let u = c as u32;
    if 65 <= u && u <= 90 {
        u + 32
    } else {
        u
    }
}

/// Whether `s`, folded to ASCII lower case, equals `target`.
pub fn eq_ignore_ascii_case(s: &str, target: &str) -> (r: bool)
    ensures
        r == (ascii_lower_text(s@) == target@),
{
    let n = s.unicode_len();
    let m = target.unicode_len();
    if n != m {
        proof {
            assert(ascii_lower_text(s@).len() != target@.len());
        }
        return false;
    }
    let mut i: usize = 0;
    while i < n
        invariant
            n == s@.len(),
            m == target@.len(),
            n == m,
            i <= n,
            forall|j: int| 0 <= j < i ==> ascii_lower(s@[j]) == target@[j],
        decreases n - i,
    {
        let c = s.get_char(i);
        let t = target.get_char(i);
        if lower_code(c) != t as u32 {
            proof {
                assert(ascii_lower_text(s@)[i as int] == ascii_lower(c));
                assert(ascii_lower_text(s@)[i as int] != target@[i as int]);
            }
            return false;
        }
        i = i + 1;
    }
    proof {
        assert(ascii_lower_text(s@) =~= target@);
    }
    true
}


/// One `key=value` pair of a query string.
pub open spec fn query_pair_text(p: (String, String)) -> Seq<char> {
    p.0@ + "="@ + p.1@
}

/// The pairs written as `k1=v1&k2=v2...`, in the order given, without
/// any escaping.
pub open spec fn query_text(pairs: Seq<(String, String)>) -> Seq<char>
    decreases pairs.len(),
{
    if pairs.len() == 0 {
        Seq::empty()
    } else if pairs.len() == 1 {
        query_pair_text(pairs[0])
    } else {
        query_text(pairs.drop_last()) + "&"@ + query_pair_text(pairs.last())
    }
}

/// Joins the pairs into a query string (see `query_text`).
pub fn query_string(pairs: &Vec<(String, String)>) -> (s: String)
    ensures
        s@ == query_text(pairs@),
{
    let mut s = String::new();
    let mut i: usize = 0;
    while i < pairs.len()
        invariant
            i <= pairs@.len(),
            s@ == query_text(pairs@.subrange(0, i as int)),
        decreases pairs@.len() - i,
    {
        let ghost before = s@;
        if i > 0 {
            s.append("&");
        }
        s.append(pairs[i].0.as_str());
        s.append("=");
        s.append(pairs[i].1.as_str());
        proof {
            let next = pairs@.subrange(0, i + 1);
            assert(next.drop_last() =~= pairs@.subrange(0, i as int));
            assert(next.last() == pairs@[i as int]);
            if i == 0 {
                assert(s@ =~= query_pair_text(pairs@[0]));
            } else {
                assert(s@ =~= before + "&"@ + query_pair_text(pairs@[i as int]));
            }
        }
        i = i + 1;
    }
    proof {
        assert(pairs@.subrange(0, pairs@.len() as int) =~= pairs@);
    }
    s
}

} // verus!
