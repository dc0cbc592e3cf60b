//! The console sink: the line of text printed for one record.
//!
//! `Page fault: PID=<pid>, Address=0x<addr>, Flags=0x<flags>`, with the
//! process id in decimal, right-aligned in five columns, the address as
//! sixteen hexadecimal digits and the flags in hexadecimal without leading
//! zeros.

use vstd::prelude::*;
use vstd::string::*;
use crate::event::PageFaultEvent;

verus! {

/// The character for one digit below sixteen, lower case.
pub open spec fn digit_char(d: nat) -> char {
    if d == 0 {
        '0'
    } else if d == 1 {
        '1'
    } else if d == 2 {
        '2'
    } else if d == 3 {
        '3'
    } else if d == 4 {
        '4'
    } else if d == 5 {
        '5'
    } else if d == 6 {
        '6'
    } else if d == 7 {
        '7'
    } else if d == 8 {
        '8'
    } else if d == 9 {
        '9'
    } else if d == 10 {
        'a'
    } else if d == 11 {
        'b'
    } else if d == 12 {
        'c'
    } else if d == 13 {
        'd'
    } else if d == 14 {
        'e'
    } else {
        'f'
    }
}

/// `x` in decimal, without leading zeros.
pub open spec fn dec_digits(x: nat) -> Seq<char>
    decreases x,
{
    if x < 10 {
        seq![digit_char(x)]
    } else {
        dec_digits(x / 10).push(digit_char(x % 10))
    }
}

/// `x` in hexadecimal, without leading zeros.
pub open spec fn hex_digits(x: nat) -> Seq<char>
    decreases x,
{
    if x < 16 {
        seq![digit_char(x)]
    } else {
        hex_digits(x / 16).push(digit_char(x % 16))
    }
}

/// The lowest `width` hexadecimal digits of `x`, leading zeros included.
pub open spec fn hex_fixed(x: nat, width: nat) -> Seq<char>
    decreases width,
{
    if width == 0 {
        Seq::empty()
    } else {
        hex_fixed(x / 16, (width - 1) as nat).push(digit_char(x % 16))
    }
}

/// `count` blanks.
pub open spec fn blanks(count: nat) -> Seq<char> {
    Seq::new(count, |i: int| ' ')
}

/// `s`, with blanks in front where it is shorter than `width`.
pub open spec fn pad_left(s: Seq<char>, width: nat) -> Seq<char> {
    if s.len() >= width {
        s
    } else {
        blanks((width - s.len()) as nat) + s
    }
}

/// The line for `e`.
pub open spec fn spec_line(e: PageFaultEvent) -> Seq<char> {
    "Page fault: PID="@ + pad_left(dec_digits(e.pid as nat), 5) + ", Address=0x"@ + hex_fixed(
        e.addr as nat,
        16,
    ) + ", Flags=0x"@ + hex_digits(e.flags as nat)
}

fn digit_str(d: u8) -> (r: &'static str)
    requires
        d < 16,
    ensures
        r@ == seq![digit_char(d as nat)],
{
    proof {
        reveal_strlit("0");
        reveal_strlit("1");
        reveal_strlit("2");
        reveal_strlit("3");
        reveal_strlit("4");
        reveal_strlit("5");
        reveal_strlit("6");
        reveal_strlit("7");
        reveal_strlit("8");
        reveal_strlit("9");
        reveal_strlit("a");
        reveal_strlit("b");
        reveal_strlit("c");
        reveal_strlit("d");
        reveal_strlit("e");
        reveal_strlit("f");
    }
    let r: &'static str = if d == 0 {
        "0"
    } else if d == 1 {
        "1"
    } else if d == 2 {
        "2"
    } else if d == 3 {
        "3"
    } else if d == 4 {
        "4"
    } else if d == 5 {
        "5"
    } else if d == 6 {
        "6"
    } else if d == 7 {
        "7"
    } else if d == 8 {
        "8"
    } else if d == 9 {
        "9"
    } else if d == 10 {
        "a"
    } else if d == 11 {
        "b"
    } else if d == 12 {
        "c"
    } else if d == 13 {
        "d"
    } else if d == 14 {
        "e"
    } else {
        "f"
    };
    assert(r@ =~= seq![digit_char(d as nat)]);
    r
}

fn push_dec(s: &mut String, x: u64)
    ensures
        final(s)@ == old(s)@ + dec_digits(x as nat),
    decreases x,
{
    if x >= 10 {
        push_dec(s, x / 10);
    }
    s.append(digit_str((x % 10) as u8));
    assert(s@ =~= old(s)@ + dec_digits(x as nat));
}

fn push_hex(s: &mut String, x: u64)
    ensures
        final(s)@ == old(s)@ + hex_digits(x as nat),
    decreases x,
{
    if x >= 16 {
        push_hex(s, x / 16);
    }
    s.append(digit_str((x % 16) as u8));
    assert(s@ =~= old(s)@ + hex_digits(x as nat));
}

fn push_hex_fixed(s: &mut String, x: u64, width: u32)
    ensures
        final(s)@ == old(s)@ + hex_fixed(x as nat, width as nat),
    decreases width,
{
    if width == 0 {
        assert(s@ =~= old(s)@ + hex_fixed(x as nat, 0));
    } else {
        push_hex_fixed(s, x / 16, width - 1);
        s.append(digit_str((x % 16) as u8));
        assert(s@ =~= old(s)@ + hex_fixed(x as nat, width as nat));
    }
}

fn push_blanks(s: &mut String, count: u64)
    ensures
        final(s)@ == old(s)@ + blanks(count as nat),
{
    let mut i: u64 = 0;
    assert(s@ =~= old(s)@ + blanks(0));
    while i < count
        invariant
            i <= count,
            s@ == old(s)@ + blanks(i as nat),
        decreases count - i,
    {
        proof {
            reveal_strlit(" ");
        }
        s.append(" ");
        i = i + 1;
        assert(s@ =~= old(s)@ + blanks(i as nat));
    }
}

fn dec_len(x: u64) -> (n: u64)
    ensures
        n == dec_digits(x as nat).len(),
        1 <= n <= x + 1,
    decreases x,
{
    if x < 10 {
        1
    } else {
        dec_len(x / 10) + 1
    }
}

/// Renders the line that the console sink prints for `e`.
pub fn format_event(e: &PageFaultEvent) -> (line: String)
    ensures
        line@ == spec_line(*e),
{
    let mut s: String = String::from_str("Page fault: PID=");
    let n: u64 = dec_len(e.pid as u64);
    if n < 5 {
        push_blanks(&mut s, 5 - n);
    }
    push_dec(&mut s, e.pid as u64);
    s.append(", Address=0x");
    push_hex_fixed(&mut s, e.addr, 16);
    s.append(", Flags=0x");
    push_hex(&mut s, e.flags as u64);
    assert(s@ =~= spec_line(*e));
    s
}

} // verus!
