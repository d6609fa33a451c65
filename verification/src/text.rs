//! Small string utilities: comparison, owned copies and the fixed-width
//! hexadecimal and decimal renderings used in identifiers and timestamps.
use vstd::prelude::*;

verus! {

/// Two string slices hold the same characters.
pub fn str_eq(a: &str, b: &str) -> (r: bool)
    ensures
        r == (a@ == b@),
{
    let x = String::from_str(a);
    let y = String::from_str(b);
    x == y
}

/// An owned copy of a string slice.
pub fn owned(s: &str) -> (r: String)
    ensures
        r@ == s@,
{
    String::from_str(s)
}

/// An owned copy of a string.
pub fn copy_string(s: &String) -> (r: String)
    ensures
        r@ == s@,
{
    s.clone()
}

/// `a` followed by `b`.
pub fn concat_strs(a: &str, b: &str) -> (r: String)
    ensures
        r@ == a@ + b@,
{
    let mut s = String::from_str(a);
    s.append(b);
    s
}

/// The lower-case hexadecimal digit for `d` (below 16).
pub open spec fn hex_char(d: nat) -> char {
    if d < 10 {
        (48 + d) as char
    } else {
        (87 + d) as char
    }
}

/// `n` in lower-case hexadecimal, left-padded with zeros (or cut to the
/// lowest digits) to exactly `width` digits.
pub open spec fn hex_fixed(n: nat, width: nat) -> Seq<char>
    decreases width,
{
    if width == 0 {
        Seq::empty()
    } else {
        hex_fixed(n / 16, (width - 1) as nat).push(hex_char(n % 16))
    }
}

/// `n` in lower-case hexadecimal with no leading zeros (`"0"` for zero).
pub open spec fn hex_min(n: nat) -> Seq<char>
    decreases n,
{
    if n < 16 {
        seq![hex_char(n)]
    } else {
        hex_min(n / 16).push(hex_char(n % 16))
    }
}

/// `n` in decimal with no leading zeros (`"0"` for zero).
pub open spec fn dec_min(n: nat) -> Seq<char>
    decreases n,
{
    if n < 10 {
        seq![hex_char(n)]
    } else {
        dec_min(n / 10).push(hex_char(n % 10))
    }
}

/// `n` in decimal, left-padded with zeros (or cut to the lowest digits) to
/// exactly `width` digits.
pub open spec fn dec_fixed(n: nat, width: nat) -> Seq<char>
    decreases width,
{
    if width == 0 {
        Seq::empty()
    } else {
        dec_fixed(n / 10, (width - 1) as nat).push(hex_char(n % 10))
    }
}

fn digit_str(d: u64) -> (s: &'static str)
    requires
        d < 16,
    ensures
        s@ == seq![hex_char(d as nat)],
{
    proof {
        reveal_strlit("0");
        reveal_strlit("1");
        reveal_strlit("2");
        reveal_strlit("3");
        reveal_strlit("4");
        reveal_strlit("5");
        reveal_strlit("6");
        reveal_strlit("7");
        reveal_strlit("8");
        reveal_strlit("9");
        reveal_strlit("a");
        reveal_strlit("b");
        reveal_strlit("c");
        reveal_strlit("d");
        reveal_strlit("e");
        reveal_strlit("f");
    }
    let s = if d == 0 {
        "0"
    } else if d == 1 {
        "1"
    } else if d == 2 {
        "2"
    } else if d == 3 {
        "3"
    } else if d == 4 {
        "4"
    } else if d == 5 {
        "5"
    } else if d == 6 {
        "6"
    } else if d == 7 {
        "7"
    } else if d == 8 {
        "8"
    } else if d == 9 {
        "9"
    } else if d == 10 {
        "a"
    } else if d == 11 {
        "b"
    } else if d == 12 {
        "c"
    } else if d == 13 {
        "d"
    } else if d == 14 {
        "e"
    } else {
        "f"
    };
    assert(s@ =~= seq![hex_char(d as nat)]);
    s
}

/// `n` as exactly `width` lower-case hexadecimal digits (`{:0width$x}` for
/// values that fit).
pub fn hex_fixed_string(n: u64, width: u64) -> (r: String)
    ensures
        r@ == hex_fixed(n as nat, width as nat),
    decreases width,
{
    if width == 0 {
        String::new()
    } else {
        let mut s = hex_fixed_string(n / 16, width - 1);
        s.append(digit_str(n % 16));
        s
    }
}

/// `n` in lower-case hexadecimal without padding (`{:x}`).
pub fn hex_min_string(n: u64) -> (r: String)
    ensures
        r@ == hex_min(n as nat),
    decreases n,
{
    if n < 16 {
        let mut s = String::new();
        s.append(digit_str(n));
        assert(s@ =~= seq![hex_char(n as nat)]);
        s
    } else {
        let mut s = hex_min_string(n / 16);
        s.append(digit_str(n % 16));
        s
    }
}

/// `n` in decimal (`{}`).
pub fn dec_min_string(n: u64) -> (r: String)
    ensures
        r@ == dec_min(n as nat),
    decreases n,
{
    if n < 10 {
        let mut s = String::new();
        s.append(digit_str(n));
        assert(s@ =~= seq![hex_char(n as nat)]);
        s
    } else {
        let mut s = dec_min_string(n / 10);
        s.append(digit_str(n % 10));
        s
    }
}

/// The first `n` characters of `s` (all of them when it is shorter).
pub fn take_chars(s: &str, n: usize) -> (r: String)
    ensures
        r@ == (if s@.len() <= n {
            s@
        } else {
            s@.subrange(0, n as int)
        }),
{
    let len = s.unicode_len();
    if len <= n {
        owned(s)
    } else {
        owned(s.substring_char(0, n))
    }
}

/// `n` as exactly `width` decimal digits (`{:0width$}` for values that fit).
pub fn dec_fixed_string(n: u64, width: u64) -> (r: String)
    ensures
        r@ == dec_fixed(n as nat, width as nat),
    decreases width,
{
    if width == 0 {
        String::new()
    } else {
        let mut s = dec_fixed_string(n / 10, width - 1);
        s.append(digit_str(n % 10));
        s
    }
}

} // verus!
