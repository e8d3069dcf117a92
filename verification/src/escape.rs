//! Escaping of binary payloads for the console, and the inverse
//! parsing of escape sequences typed on the command line.

use vstd::prelude::*;

verus! {

/// Relies on String::push: appends the given char to the end of this
/// String.
pub assume_specification[ String::push ](s: &mut String, ch: char)
    ensures
        final(s)@ == old(s)@.push(ch),
;

/// The lower-case hex digit for a value below 16.
pub open spec fn hex_digit_lower(n: u8) -> char
    recommends
        n < 16,
{
    if n < 10 {
        ((0x30 + n) as u8) as char
    } else {
        ((0x57 + n) as u8) as char
    }
}

/// How one byte is rendered by the data logger: printable bytes stand
/// for themselves, line breaks and tabs as two-character escapes, and
/// everything else as a lower-case hex escape.
pub open spec fn escape_byte(b: u8) -> Seq<char> {
    if 0x20 <= b && b <= 0x7e {
        seq![b as char]
    } else if b == 0x0a {
        seq!['\\', 'n']
    } else if b == 0x0d {
        seq!['\\', 'r']
    } else if b == 0x09 {
        seq!['\\', 't']
    } else {
        seq!['\\', 'x', hex_digit_lower(b / 16), hex_digit_lower(b % 16)]
    }
}

/// The data logger's rendering of a whole payload.
pub open spec fn escape_seq(s: Seq<u8>) -> Seq<char>
    decreases s.len(),
{
    if s.len() == 0 {
        Seq::empty()
    } else {
        escape_seq(s.drop_last()) + escape_byte(s.last())
    }
}

fn push_hex_lower(out: &mut String, n: u8)
    requires
        n < 16,
    ensures
        final(out)@ == old(out)@.push(hex_digit_lower(n)),
{
    if n < 10 {
        out.push((0x30 + n) as char);
    } else {
        out.push((0x57 + n) as char);
    }
}

/// Render a binary payload for the log: printable bytes as they are,
/// the rest escaped.
pub fn escape(data: Vec<u8>) -> (r: String)
    ensures
        r@ == escape_seq(data@),
{
    let mut escaped = String::new();
    let mut i: usize = 0;
    while i < data.len()
        invariant
            i <= data.len(),
            escaped@ == escape_seq(data@.take(i as int)),
        decreases data.len() - i,
    {
        proof {
            assert(data@.take(i + 1).drop_last() =~= data@.take(i as int));
        }
        let b = data[i];
        if 0x20 <= b && b <= 0x7e {
            escaped.push(b as char);
            proof {
                assert(escaped@ =~= escape_seq(data@.take(i as int)) + escape_byte(b));
            }
        } else if b == 0x0a {
            escaped.push('\\');
            escaped.push('n');
            proof {
                assert(escaped@ =~= escape_seq(data@.take(i as int)) + escape_byte(b));
            }
        } else if b == 0x0d {
            escaped.push('\\');
            escaped.push('r');
            proof {
                assert(escaped@ =~= escape_seq(data@.take(i as int)) + escape_byte(b));
            }
        } else if b == 0x09 {
            escaped.push('\\');
            escaped.push('t');
            proof {
                assert(escaped@ =~= escape_seq(data@.take(i as int)) + escape_byte(b));
            }
        } else {
            escaped.push('\\');
            escaped.push('x');
            push_hex_lower(&mut escaped, b / 16);
            push_hex_lower(&mut escaped, b % 16);
            proof {
                assert(escaped@ =~= escape_seq(data@.take(i as int)) + escape_byte(b));
            }
        }
        i += 1;
    }
    proof {
        assert(data@.take(data@.len() as int) =~= data@);
    }
    escaped
}

/// Whether `c` is a hexadecimal digit.
pub open spec fn is_hex_digit(c: char) -> bool {
    (0x30 <= c as u32 && c as u32 <= 0x39) || (0x61 <= c as u32 && c as u32 <= 0x66) || (0x41
        <= c as u32 && c as u32 <= 0x46)
}

/// The value of a hexadecimal digit.
pub open spec fn hex_val(c: char) -> u8
    recommends
        is_hex_digit(c),
{
    if c as u32 <= 0x39 {
        (c as u32 - 0x30) as u8
    } else if c as u32 >= 0x61 {
        (c as u32 - 0x57) as u8
    } else {
        (c as u32 - 0x37) as u8
    }
}

/// What the command line's escape syntax means, character by
/// character: `\n`, `\r`, `\t`, `\e` and `\0` stand for their control
/// bytes, `\xHH` for the byte with that hex value (kept verbatim when
/// the two characters are not hex digits, and swallowed when the input
/// ends before them), an unknown escape for itself, and any other
/// character for its low byte.
pub open spec fn unescape_seq(s: Seq<char>) -> Seq<u8>
    decreases s.len(),
{
    if s.len() == 0 {
        Seq::empty()
    } else if s[0] != '\\' {
        seq![(s[0] as u32) as u8] + unescape_seq(s.skip(1))
    } else if s.len() == 1 {
        seq![0x5cu8]
    } else {
        let c = s[1];
        if c == 'n' {
            seq![0x0au8] + unescape_seq(s.skip(2))
        } else if c == 'r' {
            seq![0x0du8] + unescape_seq(s.skip(2))
        } else if c == 't' {
            seq![0x09u8] + unescape_seq(s.skip(2))
        } else if c == 'e' {
            seq![0x1bu8] + unescape_seq(s.skip(2))
        } else if c == '0' {
            seq![0x00u8] + unescape_seq(s.skip(2))
        } else if c == 'x' {
            if s.len() >= 4 {
                if is_hex_digit(s[2]) && is_hex_digit(s[3]) {
                    seq![(hex_val(s[2]) * 16 + hex_val(s[3])) as u8] + unescape_seq(s.skip(4))
                } else {
                    seq![0x5cu8, 0x78u8, (s[2] as u32) as u8, (s[3] as u32) as u8] + unescape_seq(
                        s.skip(4),
                    )
                }
            } else {
                Seq::empty()
            }
        } else {
            seq![0x5cu8, (c as u32) as u8] + unescape_seq(s.skip(2))
        }
    }
}

fn hex_digit_value(c: char) -> (r: Option<u8>)
    ensures
        is_hex_digit(c) ==> r == Some(hex_val(c)),
        !is_hex_digit(c) ==> r is None,
{
    let v = c as u32;
    if 0x30 <= v && v <= 0x39 {
        Some((v - 0x30) as u8)
    } else if 0x61 <= v && v <= 0x66 {
        Some((v - 0x57) as u8)
    } else if 0x41 <= v && v <= 0x46 {
        Some((v - 0x37) as u8)
    } else {
        None
    }
}

/// Turn a command-line message with escape sequences into the bytes it
/// denotes.
pub fn intercept_escape_sequences(input: &str) -> (r: Vec<u8>)
    ensures
        r@ == unescape_seq(input@),
{
    let mut output: Vec<u8> = Vec::new();
    let n = input.unicode_len();
    proof {
        assert(input@.skip(0) =~= input@);
        assert(Seq::<u8>::empty() + unescape_seq(input@) =~= unescape_seq(input@));
    }
    let mut i: usize = 0;
    while i < n
        invariant
            i <= n,
            n == input@.len(),
            output@ + unescape_seq(input@.skip(i as int)) == unescape_seq(input@),
        decreases n - i,
    {
        let ghost s = input@.skip(i as int);
        let c = input.get_char(i);
        proof {
            assert(s[0] == input@[i as int]);
        }
        if c != '\\' {
            output.push((c as u32) as u8);
            proof {
                assert(s.skip(1) =~= input@.skip(i + 1));
                assert(output@ + unescape_seq(input@.skip(i + 1)) =~= unescape_seq(input@));
            }
            i += 1;
        } else if i + 1 >= n {
            output.push(0x5c);
            proof {
                assert(s.len() == 1);
                assert(input@.skip(n as int) =~= Seq::<char>::empty());
                assert(output@ + unescape_seq(input@.skip(n as int)) =~= unescape_seq(input@));
            }
            i = n;
        } else {
            let next_char = input.get_char(i + 1);
            proof {
                assert(s[1] == input@[i + 1]);
                assert(s.skip(2) =~= input@.skip(i + 2));
            }
            if next_char == 'n' {
                output.push(0x0a);
                proof {
                    assert(output@ + unescape_seq(input@.skip(i + 2)) =~= unescape_seq(input@));
                }
                i += 2;
            } else if next_char == 'r' {
                output.push(0x0d);
                proof {
                    assert(output@ + unescape_seq(input@.skip(i + 2)) =~= unescape_seq(input@));
                }
                i += 2;
            } else if next_char == 't' {
                output.push(0x09);
                proof {
                    assert(output@ + unescape_seq(input@.skip(i + 2)) =~= unescape_seq(input@));
                }
                i += 2;
            } else if next_char == 'e' {
                output.push(0x1b);
                proof {
                    assert(output@ + unescape_seq(input@.skip(i + 2)) =~= unescape_seq(input@));
                }
                i += 2;
            } else if next_char == '0' {
                output.push(0x00);
                proof {
                    assert(output@ + unescape_seq(input@.skip(i + 2)) =~= unescape_seq(input@));
                }
                i += 2;
            } else if next_char == 'x' {
                if n - i > 3 {
                    let h1 = input.get_char(i + 2);
                    let h2 = input.get_char(i + 3);
                    proof {
                        assert(s[2] == input@[i + 2]);
                        assert(s[3] == input@[i + 3]);
                        assert(s.skip(4) =~= input@.skip(i + 4));
                    }
                    let d1 = hex_digit_value(h1);
                    let d2 = hex_digit_value(h2);
                    match (d1, d2) {
                        (Some(v1), Some(v2)) => {
                            output.push(v1 * 16 + v2);
                        },
                        _ => {
                            output.push(0x5c);
                            output.push(0x78);
                            output.push((h1 as u32) as u8);
                            output.push((h2 as u32) as u8);
                        },
                    }
                    proof {
                        assert(output@ + unescape_seq(input@.skip(i + 4)) =~= unescape_seq(
                            input@,
                        ));
                    }
                    i += 4;
                } else {
                    proof {
                        assert(s.len() < 4);
                        assert(input@.skip(n as int) =~= Seq::<char>::empty());
                        assert(output@ + unescape_seq(input@.skip(n as int)) =~= unescape_seq(
                            input@,
                        ));
                    }
                    i = n;
                }
            } else {
                output.push(0x5c);
                output.push((next_char as u32) as u8);
                proof {
                    assert(output@ + unescape_seq(input@.skip(i + 2)) =~= unescape_seq(input@));
                }
                i += 2;
            }
        }
    }
    proof {
        assert(input@.skip(n as int) =~= Seq::<char>::empty());
        assert(output@ + unescape_seq(input@.skip(n as int)) =~= output@);
    }
    output
}

} // verus!
