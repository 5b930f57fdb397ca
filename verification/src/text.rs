//! Numbers and paths as text.

use vstd::prelude::*;
use vstd::string::*;

verus! {

/// The character of a digit below sixteen.
pub open spec fn digit_char(d: int) -> char {
    if d == 0 {
        '0'
    } else if d == 1 {
        '1'
    } else if d == 2 {
        '2'
    } else if d == 3 {
        '3'
    } else if d == 4 {
        '4'
    } else if d == 5 {
        '5'
    } else if d == 6 {
        '6'
    } else if d == 7 {
        '7'
    } else if d == 8 {
        '8'
    } else if d == 9 {
        '9'
    } else if d == 10 {
        'a'
    } else if d == 11 {
        'b'
    } else if d == 12 {
        'c'
    } else if d == 13 {
        'd'
    } else if d == 14 {
        'e'
    } else {
        'f'
    }
}

/// `n` in decimal, without leading zeros.
pub open spec fn decimal_text(n: nat) -> Seq<char>
    decreases n,
{
    if n < 10 {
        seq![digit_char(n as int)]
    } else {
        decimal_text(n / 10).push(digit_char((n % 10) as int))
    }
}

/// `n` in hexadecimal, with small letters and without leading zeros.
pub open spec fn hex_text(n: nat) -> Seq<char>
    decreases n,
{
    if n < 16 {
        seq![digit_char(n as int)]
    } else {
        hex_text(n / 16).push(digit_char((n % 16) as int))
    }
}

fn digit_str(d: u64) -> (s: &'static str)
    requires
        d < 16,
    ensures
        s@ == seq![digit_char(d as int)],
{
    let s = match d {
        0 => "0",
        1 => "1",
        2 => "2",
        3 => "3",
        4 => "4",
        5 => "5",
        6 => "6",
        7 => "7",
        8 => "8",
        9 => "9",
        10 => "a",
        11 => "b",
        12 => "c",
        13 => "d",
        14 => "e",
        _ => "f",
    };
    proof {
        reveal_strlit("0");
        reveal_strlit("1");
        reveal_strlit("2");
        reveal_strlit("3");
        reveal_strlit("4");
        reveal_strlit("5");
        reveal_strlit("6");
        reveal_strlit("7");
        reveal_strlit("8");
        reveal_strlit("9");
        reveal_strlit("a");
        reveal_strlit("b");
        reveal_strlit("c");
        reveal_strlit("d");
        reveal_strlit("e");
        reveal_strlit("f");
        assert(s@ =~= seq![digit_char(d as int)]);
    }
    s
}

/// Writes `n` in decimal.
pub fn decimal(n: u64) -> (s: String)
    ensures
        s@ == decimal_text(n as nat),
    decreases n,
{
    if n < 10 {
        String::from_str(digit_str(n))
    } else {
        let mut s = decimal(n / 10);
        s.append(digit_str(n % 10));
        s
    }
}

/// Writes `n` in hexadecimal, with small letters.
pub fn lower_hex(n: u64) -> (s: String)
    ensures
        s@ == hex_text(n as nat),
    decreases n,
{
    if n < 16 {
        String::from_str(digit_str(n))
    } else {
        let mut s = lower_hex(n / 16);
        s.append(digit_str(n % 16));
        s
    }
}

/// The path `base` extended by `component`, with `/` between the two where
/// neither brings it. A component that starts at the root replaces the base.
pub open spec fn joined(base: Seq<char>, component: Seq<char>) -> Seq<char> {
    if component.len() > 0 && component[0] == '/' {
        component
    } else if base.len() == 0 || base.last() == '/' {
        base + component
    } else {
        base + seq!['/'] + component
    }
}

/// Whether a text starts with `/`.
pub fn starts_at_root(text: &str) -> (rooted: bool)
    ensures
        rooted == (text@.len() > 0 && text@[0] == '/'),
{
    text.unicode_len() > 0 && text.get_char(0) == '/'
}

/// Extends the path `base` by `component`.
pub fn join_path(base: String, component: &str) -> (path: String)
    ensures
        path@ == joined(base@, component@),
{
    if starts_at_root(component) {
        return String::from_str(component);
    }
    let n = base.as_str().unicode_len();
    if n == 0 || base.as_str().get_char(n - 1) == '/' {
        base.concat(component)
    } else {
        proof {
            reveal_strlit("/");
            assert("/"@ =~= seq!['/']);
        }
        base.concat("/").concat(component)
    }
}

} // verus!
