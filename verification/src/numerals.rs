use vstd::prelude::*;
use vstd::string::StringExecFns;

verus! {

/// The digit that stands for `d` in bases up to sixteen, in lower case.
pub open spec fn digit(d: nat) -> char
    recommends
        d < 16,
{
    "0123456789abcdef"@[d as int]
}

/// The digits of `v` in base sixteen, lower case, without leading zeros.
pub open spec fn lower_hex(v: nat) -> Seq<char>
    decreases v,
{
    if v < 16 {
        seq![digit(v)]
    } else {
        lower_hex(v / 16).push(digit(v % 16))
    }
}

/// The digits of `v` in base ten, without leading zeros.
pub open spec fn decimal(v: nat) -> Seq<char>
    decreases v,
{
    if v < 10 {
        seq![digit(v)]
    } else {
        decimal(v / 10).push(digit(v % 10))
    }
}

/// The digit that stands for `d`.
fn digit_text(d: u8) -> (r: &'static str)
    requires
        d < 16,
    ensures
        r@ == seq![digit(d as nat)],
{
    proof {
        reveal_strlit("0123456789abcdef");
    }
    let (r, Ghost(c)): (&'static str, Ghost<char>) = match d {
        0 => ("0", Ghost('0')),
        1 => ("1", Ghost('1')),
        2 => ("2", Ghost('2')),
        3 => ("3", Ghost('3')),
        4 => ("4", Ghost('4')),
        5 => ("5", Ghost('5')),
        6 => ("6", Ghost('6')),
        7 => ("7", Ghost('7')),
        8 => ("8", Ghost('8')),
        9 => ("9", Ghost('9')),
        10 => ("a", Ghost('a')),
        11 => ("b", Ghost('b')),
        12 => ("c", Ghost('c')),
        13 => ("d", Ghost('d')),
        14 => ("e", Ghost('e')),
        _ => ("f", Ghost('f')),
    };
    proof {
        reveal_strlit("0");
        reveal_strlit("1");
        reveal_strlit("2");
        reveal_strlit("3");
        reveal_strlit("4");
        reveal_strlit("5");
        reveal_strlit("6");
        reveal_strlit("7");
        reveal_strlit("8");
        reveal_strlit("9");
        reveal_strlit("a");
        reveal_strlit("b");
        reveal_strlit("c");
        reveal_strlit("d");
        reveal_strlit("e");
        reveal_strlit("f");
        assert(r@ =~= seq![c]);
        assert(c == digit(d as nat));
    }
    r
}

/// Writes a number in base sixteen, lower case, without a prefix or leading
/// zeros.
pub fn to_lower_hex(v: u64) -> (r: String)
    ensures
        r@ == lower_hex(v as nat),
    decreases v,
{
    if v < 16 {
        digit_text(v as u8).to_owned()
    } else {
        let head = to_lower_hex(v / 16);
        head.concat(digit_text((v % 16) as u8))
    }
}

/// Writes a number in base ten, without leading zeros.
pub fn to_decimal(v: u128) -> (r: String)
    ensures
        r@ == decimal(v as nat),
    decreases v,
{
    if v < 10 {
        digit_text(v as u8).to_owned()
    } else {
        let head = to_decimal(v / 10);
        head.concat(digit_text((v % 10) as u8))
    }
}

} // verus!
