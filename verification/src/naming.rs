use vstd::prelude::*;

use crate::layer_id::LayerId;

verus! {

/// The character of the decimal digit `d` (`d` below 10).
pub open spec fn digit_char(d: nat) -> char {
    if d == 0 {
        '0'
    } else if d == 1 {
        '1'
    } else if d == 2 {
        '2'
    } else if d == 3 {
        '3'
    } else if d == 4 {
        '4'
    } else if d == 5 {
        '5'
    } else if d == 6 {
        '6'
    } else if d == 7 {
        '7'
    } else if d == 8 {
        '8'
    } else {
        '9'
    }
}

/// The decimal form of `n`, without leading zeros.
pub open spec fn decimal(n: nat) -> Seq<char>
    decreases n,
{
    if n < 10 {
        seq![digit_char(n)]
    } else {
        decimal(n / 10).push(digit_char(n % 10))
    }
}

/// The name under which a layer's canvas keeps the object `id` drawn on
/// `layer`: the layer's index in decimal, an underscore, then the id.
pub open spec fn spec_canvas_name(layer: LayerId, id: Seq<char>) -> Seq<char> {
    decimal(layer.0 as nat) + seq!['_'] + id
}

fn digit_str(d: usize) -> (s: &'static str)
    requires
        d < 10,
    ensures
        s@ == seq![digit_char(d as nat)],
{
    proof {
        reveal_strlit("0");
        reveal_strlit("1");
        reveal_strlit("2");
        reveal_strlit("3");
        reveal_strlit("4");
        reveal_strlit("5");
        reveal_strlit("6");
        reveal_strlit("7");
        reveal_strlit("8");
        reveal_strlit("9");
    }
    if d == 0 {
        "0"
    } else if d == 1 {
        "1"
    } else if d == 2 {
        "2"
    } else if d == 3 {
        "3"
    } else if d == 4 {
        "4"
    } else if d == 5 {
        "5"
    } else if d == 6 {
        "6"
    } else if d == 7 {
        "7"
    } else if d == 8 {
        "8"
    } else {
        "9"
    }
}

/// `n` written in decimal.
pub fn decimal_string(n: usize) -> (s: String)
    ensures
        s@ == decimal(n as nat),
    decreases n,
{
    if n < 10 {
        String::from_str(digit_str(n))
    } else {
        let mut s = decimal_string(n / 10);
        s.append(digit_str(n % 10));
        s
    }
}

/// The name under which a layer's canvas keeps the object `id` drawn on
/// `layer`.
pub fn canvas_name(layer: LayerId, id: &str) -> (name: String)
    ensures
        name@ == spec_canvas_name(layer, id@),
{
    let mut name = decimal_string(layer.0);
    proof {
        reveal_strlit("_");
    }
    name.append("_");
    name.append(id);
    name
}

/// Every character of a decimal form is a digit.
proof fn lemma_decimal_digits(n: nat)
    ensures
        decimal(n).len() >= 1,
        forall|i: int| 0 <= i < decimal(n).len() ==> #[trigger] decimal(n)[i] != '_',
    decreases n,
{
    if n >= 10 {
        lemma_decimal_digits(n / 10);
        assert forall|i: int| 0 <= i < decimal(n).len() implies #[trigger] decimal(n)[i] != '_' by {
            if i < decimal(n / 10).len() {
                assert(decimal(n)[i] == decimal(n / 10)[i]);
            }
        }
    }
}

/// Distinct numbers have distinct decimal forms.
proof fn lemma_decimal_injective(a: nat, b: nat)
    requires
        decimal(a) == decimal(b),
    ensures
        a == b,
    decreases a,
{
    lemma_decimal_digits(a / 10);
    lemma_decimal_digits(b / 10);
    if a < 10 && b < 10 {
        assert(decimal(a) == seq![digit_char(a)]);
        assert(decimal(b) == seq![digit_char(b)]);
        assert(seq![digit_char(a)][0] == digit_char(a));
        assert(seq![digit_char(b)][0] == digit_char(b));
        assert(digit_char(a) == digit_char(b));
        assert(a == b);
    } else if a < 10 {
        assert(decimal(b).len() >= 2);
    } else if b < 10 {
        assert(decimal(a).len() >= 2);
    } else {
        assert(decimal(a) == decimal(a / 10).push(digit_char(a % 10)));
        assert(decimal(b) == decimal(b / 10).push(digit_char(b % 10)));
        assert(decimal(a).last() == digit_char(a % 10));
        assert(decimal(b).last() == digit_char(b % 10));
        assert(decimal(a).drop_last() =~= decimal(a / 10));
        assert(decimal(b).drop_last() =~= decimal(b / 10));
        lemma_decimal_injective(a / 10, b / 10);
        assert(digit_char(a % 10) == digit_char(b % 10));
        assert(a % 10 == b % 10);
        vstd::arithmetic::div_mod::lemma_fundamental_div_mod(a as int, 10);
        vstd::arithmetic::div_mod::lemma_fundamental_div_mod(b as int, 10);
        assert(a == b);
    }
}

/// Distinct (layer, id) pairs get distinct canvas names, so the objects of
/// a scene never share an entry of a canvas.
pub proof fn law_canvas_names_distinct(l1: LayerId, id1: Seq<char>, l2: LayerId, id2: Seq<char>)
    ensures
        spec_canvas_name(l1, id1) == spec_canvas_name(l2, id2) ==> l1 == l2 && id1 == id2,
{
    if spec_canvas_name(l1, id1) == spec_canvas_name(l2, id2) {
        let (d1, d2) = (decimal(l1.0 as nat), decimal(l2.0 as nat));
        let (s1, s2) = (spec_canvas_name(l1, id1), spec_canvas_name(l2, id2));
        lemma_decimal_digits(l1.0 as nat);
        lemma_decimal_digits(l2.0 as nat);
        if d1.len() < d2.len() {
            assert(s1[d1.len() as int] == '_');
            assert(s2[d1.len() as int] == d2[d1.len() as int]);
        } else if d2.len() < d1.len() {
            assert(s2[d2.len() as int] == '_');
            assert(s1[d2.len() as int] == d1[d2.len() as int]);
        } else {
            assert(s1.take(d1.len() as int) =~= d1);
            assert(s2.take(d2.len() as int) =~= d2);
            lemma_decimal_injective(l1.0 as nat, l2.0 as nat);
            assert(s1.skip(d1.len() as int + 1) =~= id1);
            assert(s2.skip(d2.len() as int + 1) =~= id2);
        }
    }
}

} // verus!
