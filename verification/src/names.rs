//! Names that the compiler introduces: temporaries and block labels, each
//! made of a prefix and a counter written in decimal.

use vstd::prelude::*;
use vstd::string::StringExecFns;

verus! {

/// The character of the digit `d`, for `d < 10`.
pub open spec fn digit_char(d: nat) -> char {
    if d == 0 {
        '0'
    } else if d == 1 {
        '1'
    } else if d == 2 {
        '2'
    } else if d == 3 {
        '3'
    } else if d == 4 {
        '4'
    } else if d == 5 {
        '5'
    } else if d == 6 {
        '6'
    } else if d == 7 {
        '7'
    } else if d == 8 {
        '8'
    } else {
        '9'
    }
}

/// The decimal numeral of `n`, without leading zeros.
pub open spec fn decimal(n: nat) -> Seq<char>
    decreases n,
{
    if n < 10 {
        seq![digit_char(n)]
    } else {
        decimal(n / 10).push(digit_char(n % 10))
    }
}

/// The text `entry`, the label of the block at which a program starts.
pub open spec fn entry_name() -> Seq<char> {
    seq!['e', 'n', 't', 'r', 'y']
}

/// The prefix of the temporaries that hold literals.
pub open spec fn const_prefix() -> Seq<char> {
    seq!['_', 'c', 'o', 'n', 's', 't']
}

/// The prefix of the temporaries that hold results of operations.
pub open spec fn arith_prefix() -> Seq<char> {
    seq!['_', 't']
}

/// The name of the temporary with number `n`: the prefix and the number.
pub open spec fn temp_name(prefix: Seq<char>, n: nat) -> Seq<char> {
    prefix + decimal(n)
}

/// The name of the block label with number `n`: `lbl` and the number.
pub open spec fn label_name(n: nat) -> Seq<char> {
    seq!['l', 'b', 'l'] + decimal(n)
}

/// Different digits have different characters.
pub proof fn lemma_digit_char_injective(a: nat, b: nat)
    requires
        a < 10,
        b < 10,
        digit_char(a) == digit_char(b),
    ensures
        a == b,
{
}

/// A numeral is not empty.
pub proof fn lemma_decimal_len(n: nat)
    ensures
        decimal(n).len() >= 1,
        n >= 10 ==> decimal(n).len() >= 2,
    decreases n,
{
    if n >= 10 {
        lemma_decimal_len(n / 10);
    }
}

/// Different numbers have different numerals.
pub proof fn lemma_decimal_injective(a: nat, b: nat)
    requires
        decimal(a) == decimal(b),
    ensures
        a == b,
    decreases a,
{
    lemma_decimal_len(a);
    lemma_decimal_len(b);
    if a < 10 {
        assert(b < 10);
        assert(decimal(a)[0] == digit_char(a));
        assert(decimal(b)[0] == digit_char(b));
        lemma_digit_char_injective(a, b);
    } else {
        assert(b >= 10);
        let da = decimal(a / 10);
        let db = decimal(b / 10);
        assert(decimal(a).last() == digit_char(a % 10));
        assert(decimal(b).last() == digit_char(b % 10));
        assert(da =~= decimal(a).drop_last());
        assert(db =~= decimal(b).drop_last());
        lemma_decimal_injective(a / 10, b / 10);
        lemma_digit_char_injective(a % 10, b % 10);
        assert(a == 10 * (a / 10) + a % 10);
        assert(b == 10 * (b / 10) + b % 10);
    }
}

/// What follows a common prefix is equal when the wholes are.
pub proof fn lemma_cancel_prefix(p: Seq<char>, x: Seq<char>, y: Seq<char>)
    requires
        p + x == p + y,
    ensures
        x == y,
{
    assert(x =~= (p + x).subrange(p.len() as int, (p + x).len() as int));
    assert(y =~= (p + y).subrange(p.len() as int, (p + y).len() as int));
}

/// Under one prefix, temporaries with different numbers have different
/// names.
pub proof fn lemma_temp_name_injective(prefix: Seq<char>, a: nat, b: nat)
    requires
        temp_name(prefix, a) == temp_name(prefix, b),
    ensures
        a == b,
{
    lemma_cancel_prefix(prefix, decimal(a), decimal(b));
    lemma_decimal_injective(a, b);
}

/// A temporary for a literal and one for an operation never share a name.
pub proof fn lemma_temp_prefixes_disjoint(a: nat, b: nat)
    ensures
        temp_name(const_prefix(), a) != temp_name(arith_prefix(), b),
{
    assert(temp_name(const_prefix(), a)[1] == 'c');
    assert(temp_name(arith_prefix(), b)[1] == 't');
}

/// Labels with different numbers have different names.
pub proof fn lemma_label_name_injective(a: nat, b: nat)
    requires
        label_name(a) == label_name(b),
    ensures
        a == b,
{
    lemma_cancel_prefix(seq!['l', 'b', 'l'], decimal(a), decimal(b));
    lemma_decimal_injective(a, b);
}

/// No numbered label is called `entry`.
pub proof fn lemma_label_name_not_entry(n: nat)
    ensures
        label_name(n) != entry_name(),
{
    assert(label_name(n)[0] == 'l');
    assert(entry_name()[0] == 'e');
}

/// The one-character text of the digit `d`.
fn digit_str(d: u8) -> (r: &'static str)
    requires
        d < 10,
    ensures
        r@ == seq![digit_char(d as nat)],
{
    proof {
        reveal_strlit("0");
        reveal_strlit("1");
        reveal_strlit("2");
        reveal_strlit("3");
        reveal_strlit("4");
        reveal_strlit("5");
        reveal_strlit("6");
        reveal_strlit("7");
        reveal_strlit("8");
        reveal_strlit("9");
    }
    let r = if d == 0 {
        "0"
    } else if d == 1 {
        "1"
    } else if d == 2 {
        "2"
    } else if d == 3 {
        "3"
    } else if d == 4 {
        "4"
    } else if d == 5 {
        "5"
    } else if d == 6 {
        "6"
    } else if d == 7 {
        "7"
    } else if d == 8 {
        "8"
    } else {
        "9"
    };
    assert(r@ =~= seq![digit_char(d as nat)]);
    r
}

/// Appends the decimal numeral of `n` to `s`.
pub fn push_decimal(s: &mut String, n: u128)
    ensures
        final(s)@ == old(s)@ + decimal(n as nat),
    decreases n,
{
    if n >= 10 {
        push_decimal(s, n / 10);
    }
    let d: u8 = (n % 10) as u8;
    s.append(digit_str(d));
    assert(final(s)@ =~= old(s)@ + decimal(n as nat));
}

/// The name of the temporary with number `n` under `prefix`.
pub fn make_temp_name(prefix: &str, n: u128) -> (r: String)
    ensures
        r@ == temp_name(prefix@, n as nat),
{
    let mut s = String::from_str(prefix);
    push_decimal(&mut s, n);
    s
}

/// The name of the block label with number `n`.
pub fn make_label_name(n: u128) -> (r: String)
    ensures
        r@ == label_name(n as nat),
{
    proof {
        reveal_strlit("lbl");
    }
    let mut s = String::from_str("lbl");
    assert(s@ =~= seq!['l', 'b', 'l']);
    push_decimal(&mut s, n);
    s
}

} // verus!
