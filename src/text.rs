//! Textual forms of addresses: hexadecimal octets and decimal octets.
use vstd::prelude::*;
use vstd::string::*;

verus! {

/// The lower-case hexadecimal digit for `d`, where `d < 16`.
pub open spec fn digit_char(d: int) -> char {
    seq!['0', '1', '2', '3', '4', '5', '6', '7', '8', '9', 'a', 'b', 'c', 'd', 'e', 'f'][d]
}

/// An octet in hexadecimal, lower case, without leading zeros.
pub open spec fn hex_text(b: u8) -> Seq<char> {
    if b < 16 {
        seq![digit_char(b as int)]
    } else {
        seq![digit_char(b as int / 16), digit_char(b as int % 16)]
    }
}

/// An octet in decimal, without leading zeros.
pub open spec fn dec_text(b: u8) -> Seq<char> {
    if b < 10 {
        seq![digit_char(b as int)]
    } else if b < 100 {
        seq![digit_char(b as int / 10), digit_char(b as int % 10)]
    } else {
        seq![digit_char(b as int / 100), digit_char(b as int / 10 % 10), digit_char(b as int % 10)]
    }
}

/// Six octets as `x:x:x:x:x:x`, each in the form of [`hex_text`].
pub open spec fn mac_text(b: Seq<u8>) -> Seq<char> {
    hex_text(b[0]) + seq![':'] + hex_text(b[1]) + seq![':'] + hex_text(b[2]) + seq![':']
        + hex_text(b[3]) + seq![':'] + hex_text(b[4]) + seq![':'] + hex_text(b[5])
}

/// Four octets as `d.d.d.d`, each in the form of [`dec_text`].
pub open spec fn ipv4_text(b: Seq<u8>) -> Seq<char> {
    dec_text(b[0]) + seq!['.'] + dec_text(b[1]) + seq!['.'] + dec_text(b[2]) + seq!['.']
        + dec_text(b[3])
}

fn digit_str(d: u8) -> (r: &'static str)
    requires
        d < 16,
    ensures
        r@ == seq![digit_char(d as int)],
{
    match d {
        0 => {
            proof {
                reveal_strlit("0");
            }
            "0"
        },
        1 => {
            proof {
                reveal_strlit("1");
            }
            "1"
        },
        2 => {
            proof {
                reveal_strlit("2");
            }
            "2"
        },
        3 => {
            proof {
                reveal_strlit("3");
            }
            "3"
        },
        4 => {
            proof {
                reveal_strlit("4");
            }
            "4"
        },
        5 => {
            proof {
                reveal_strlit("5");
            }
            "5"
        },
        6 => {
            proof {
                reveal_strlit("6");
            }
            "6"
        },
        7 => {
            proof {
                reveal_strlit("7");
            }
            "7"
        },
        8 => {
            proof {
                reveal_strlit("8");
            }
            "8"
        },
        9 => {
            proof {
                reveal_strlit("9");
            }
            "9"
        },
        10 => {
            proof {
                reveal_strlit("a");
            }
            "a"
        },
        11 => {
            proof {
                reveal_strlit("b");
            }
            "b"
        },
        12 => {
            proof {
                reveal_strlit("c");
            }
            "c"
        },
        13 => {
            proof {
                reveal_strlit("d");
            }
            "d"
        },
        14 => {
            proof {
                reveal_strlit("e");
            }
            "e"
        },
        _ => {
            proof {
                reveal_strlit("f");
            }
            "f"
        },
    }
}

fn push_hex(s: &mut String, b: u8)
    ensures
        final(s)@ == old(s)@ + hex_text(b),
{
    if b < 16 {
        s.append(digit_str(b));
    } else {
        s.append(digit_str(b / 16));
        s.append(digit_str(b % 16));
    }
    assert(final(s)@ =~= old(s)@ + hex_text(b));
}

fn push_dec(s: &mut String, b: u8)
    ensures
        final(s)@ == old(s)@ + dec_text(b),
{
    if b < 10 {
        s.append(digit_str(b));
    } else if b < 100 {
        s.append(digit_str(b / 10));
        s.append(digit_str(b % 10));
    } else {
        s.append(digit_str(b / 100));
        s.append(digit_str(b / 10 % 10));
        s.append(digit_str(b % 10));
    }
    assert(final(s)@ =~= old(s)@ + dec_text(b));
}

/// The first six octets of `b` as MAC address text.
pub fn mac_string(b: &[u8]) -> (r: String)
    requires
        b@.len() >= 6,
    ensures
        r@ == mac_text(b@),
{
    proof {
        reveal_strlit(":");
    }
    let mut s = String::new();
    push_hex(&mut s, b[0]);
    s.append(":");
    push_hex(&mut s, b[1]);
    s.append(":");
    push_hex(&mut s, b[2]);
    s.append(":");
    push_hex(&mut s, b[3]);
    s.append(":");
    push_hex(&mut s, b[4]);
    s.append(":");
    push_hex(&mut s, b[5]);
    assert(s@ =~= mac_text(b@));
    s
}

/// The first four octets of `b` as dotted-decimal IPv4 text.
pub fn ipv4_string(b: &[u8]) -> (r: String)
    requires
        b@.len() >= 4,
    ensures
        r@ == ipv4_text(b@),
{
    proof {
        reveal_strlit(".");
    }
    let mut s = String::new();
    push_dec(&mut s, b[0]);
    s.append(".");
    push_dec(&mut s, b[1]);
    s.append(".");
    push_dec(&mut s, b[2]);
    s.append(".");
    push_dec(&mut s, b[3]);
    assert(s@ =~= ipv4_text(b@));
    s
}

} // verus!
