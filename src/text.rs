//! Building declaration strings.
use vstd::prelude::*;
use vstd::string::StringExecFns;

verus! {

/// The character of a decimal digit.
pub open spec fn digit_char(d: nat) -> char {
    if d == 0 {
        '0'
    } else if d == 1 {
        '1'
    } else if d == 2 {
        '2'
    } else if d == 3 {
        '3'
    } else if d == 4 {
        '4'
    } else if d == 5 {
        '5'
    } else if d == 6 {
        '6'
    } else if d == 7 {
        '7'
    } else if d == 8 {
        '8'
    } else {
        '9'
    }
}

/// The decimal digits of `n`, most significant first, without leading zeros.
pub open spec fn decimal(n: nat) -> Seq<char>
    decreases n,
{
    if n < 10 {
        seq![digit_char(n)]
    } else {
        decimal(n / 10) + seq![digit_char(n % 10)]
    }
}

/// The elements joined with `", "` between neighbours.
pub open spec fn joined(elements: Seq<Seq<char>>) -> Seq<char>
    decreases elements.len(),
{
    if elements.len() == 0 {
        Seq::empty()
    } else if elements.len() == 1 {
        elements[0]
    } else {
        joined(elements.drop_last()) + ", "@ + elements.last()
    }
}

fn digit_str(d: usize) -> (r: &'static str)
    requires
        d < 10,
    ensures
        r@ == seq![digit_char(d as nat)],
{
    proof {
        reveal_strlit("0");
        reveal_strlit("1");
        reveal_strlit("2");
        reveal_strlit("3");
        reveal_strlit("4");
        reveal_strlit("5");
        reveal_strlit("6");
        reveal_strlit("7");
        reveal_strlit("8");
        reveal_strlit("9");
    }
    let r = if d == 0 {
        "0"
    } else if d == 1 {
        "1"
    } else if d == 2 {
        "2"
    } else if d == 3 {
        "3"
    } else if d == 4 {
        "4"
    } else if d == 5 {
        "5"
    } else if d == 6 {
        "6"
    } else if d == 7 {
        "7"
    } else if d == 8 {
        "8"
    } else {
        "9"
    };
    proof {
        assert(r@ =~= seq![digit_char(d as nat)]);
    }
    r
}

/// `n` written in decimal.
pub fn decimal_string(n: usize) -> (r: String)
    ensures
        r@ == decimal(n as nat),
    decreases n,
{
    if n < 10 {
        String::from_str(digit_str(n))
    } else {
        let head = decimal_string(n / 10);
        head.concat(digit_str(n % 10))
    }
}

/// `prefix`, then `inner`, then `suffix`.
pub fn wrap(prefix: &str, inner: String, suffix: &str) -> (r: String)
    ensures
        r@ == prefix@ + inner@ + suffix@,
{
    String::from_str(prefix).concat(inner.as_str()).concat(suffix)
}

/// `prefix`, then `first` and `second` separated by `", "`, then `suffix`.
pub fn wrap_pair(prefix: &str, first: String, second: String, suffix: &str) -> (r: String)
    ensures
        r@ == prefix@ + first@ + ", "@ + second@ + suffix@,
{
    String::from_str(prefix).concat(first.as_str()).concat(", ").concat(second.as_str()).concat(
        suffix,
    )
}

/// `"Tuple<"`, then the elements separated by `", "`, then `">"`.
pub fn tuple_declaration(elements: Vec<String>) -> (r: String)
    requires
        elements@.len() >= 1,
    ensures
        r@ == "Tuple<"@ + joined(elements@.map_values(|e: String| e@)) + ">"@,
{
    let ghost v = elements@.map_values(|e: String| e@);
    let mut s = String::from_str("Tuple<");
    let mut i: usize = 0;
    while i < elements.len()
        invariant
            0 <= i <= elements@.len(),
            v == elements@.map_values(|e: String| e@),
            s@ == "Tuple<"@ + joined(v.subrange(0, i as int)),
        decreases elements@.len() - i,
    {
        proof {
            let next = v.subrange(0, i + 1);
            assert(next.drop_last() =~= v.subrange(0, i as int));
            if i == 0 {
                assert(joined(v.subrange(0, 0)) =~= Seq::<char>::empty());
                assert(joined(next) == next[0]);
            }
        }
        if i > 0 {
            s = s.concat(", ");
        }
        s = s.concat(elements[i].as_str());
        proof {
            assert(s@ =~= "Tuple<"@ + joined(v.subrange(0, i + 1)));
        }
        i += 1;
    }
    proof {
        assert(v.subrange(0, elements@.len() as int) =~= v);
    }
    s.concat(">")
}

} // verus!
