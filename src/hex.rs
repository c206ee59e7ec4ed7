use vstd::prelude::*;

verus! {

/// The lowercase hexadecimal digit of a value below 16.
pub open spec fn hex_digit(n: u8) -> char {
    seq!['0', '1', '2', '3', '4', '5', '6', '7', '8', '9', 'a', 'b', 'c', 'd', 'e', 'f'][n as int]
}

/// Two lowercase hexadecimal digits of a byte, high nibble first.
pub open spec fn hex_byte(b: u8) -> Seq<char> {
    seq![hex_digit(b / 16), hex_digit(b % 16)]
}

/// The colour as `#rrggbb`, in lowercase.
pub open spec fn hex_string(rgb: Seq<u8>) -> Seq<char> {
    seq!['#'] + hex_byte(rgb[0]) + hex_byte(rgb[1]) + hex_byte(rgb[2])
}

/// The text is `#rrggbb` for some colour.
pub open spec fn is_hex_colour(s: Seq<char>) -> bool {
    exists|p: Seq<u8>| p.len() == 3 && #[trigger] hex_string(p) == s
}

/// The lowercase hexadecimal digit of a value below 16, as text.
fn hex_digit_str(n: u8) -> (r: &'static str)
    requires
        n < 16,
    ensures
        r@ == seq![hex_digit(n)],
{
    match n {
        0 => {
            proof {
                reveal_strlit("0");
            }
            assert("0"@ =~= seq![hex_digit(n)]);
            "0"
        },
        1 => {
            proof {
                reveal_strlit("1");
            }
            assert("1"@ =~= seq![hex_digit(n)]);
            "1"
        },
        2 => {
            proof {
                reveal_strlit("2");
            }
            assert("2"@ =~= seq![hex_digit(n)]);
            "2"
        },
        3 => {
            proof {
                reveal_strlit("3");
            }
            assert("3"@ =~= seq![hex_digit(n)]);
            "3"
        },
        4 => {
            proof {
                reveal_strlit("4");
            }
            assert("4"@ =~= seq![hex_digit(n)]);
            "4"
        },
        5 => {
            proof {
                reveal_strlit("5");
            }
            assert("5"@ =~= seq![hex_digit(n)]);
            "5"
        },
        6 => {
            proof {
                reveal_strlit("6");
            }
            assert("6"@ =~= seq![hex_digit(n)]);
            "6"
        },
        7 => {
            proof {
                reveal_strlit("7");
            }
            assert("7"@ =~= seq![hex_digit(n)]);
            "7"
        },
        8 => {
            proof {
                reveal_strlit("8");
            }
            assert("8"@ =~= seq![hex_digit(n)]);
            "8"
        },
        9 => {
            proof {
                reveal_strlit("9");
            }
            assert("9"@ =~= seq![hex_digit(n)]);
            "9"
        },
        10 => {
            proof {
                reveal_strlit("a");
            }
            assert("a"@ =~= seq![hex_digit(n)]);
            "a"
        },
        11 => {
            proof {
                reveal_strlit("b");
            }
            assert("b"@ =~= seq![hex_digit(n)]);
            "b"
        },
        12 => {
            proof {
                reveal_strlit("c");
            }
            assert("c"@ =~= seq![hex_digit(n)]);
            "c"
        },
        13 => {
            proof {
                reveal_strlit("d");
            }
            assert("d"@ =~= seq![hex_digit(n)]);
            "d"
        },
        14 => {
            proof {
                reveal_strlit("e");
            }
            assert("e"@ =~= seq![hex_digit(n)]);
            "e"
        },
        _ => {
            proof {
                reveal_strlit("f");
            }
            assert("f"@ =~= seq![hex_digit(n)]);
            "f"
        },
    }
}

/// The colour as `#rrggbb`, in lowercase.
pub(crate) fn rgb2hex(rgb: &[u8; 3]) -> (r: String)
    ensures
        r@ == hex_string(rgb@),
{
    proof {
        reveal_strlit("#");
    }
    let mut r = String::from_str("#");
    r.append(hex_digit_str(rgb[0] / 16));
    r.append(hex_digit_str(rgb[0] % 16));
    r.append(hex_digit_str(rgb[1] / 16));
    r.append(hex_digit_str(rgb[1] % 16));
    r.append(hex_digit_str(rgb[2] / 16));
    r.append(hex_digit_str(rgb[2] % 16));
    assert(r@ =~= hex_string(rgb@));
    r
}

/// Each colour of the palette as `#rrggbb`, in the same order.
pub fn hex_palette(palette: &Vec<[u8; 3]>) -> (r: Vec<String>)
    ensures
        r.len() == palette.len(),
        forall|i: int| 0 <= i < r.len() ==> (#[trigger] r[i])@ == hex_string(palette[i]@),
{
    let mut out: Vec<String> = Vec::new();
    let mut i: usize = 0;
    while i < palette.len()
        invariant
            i <= palette.len(),
            out.len() == i,
            forall|j: int| 0 <= j < i ==> (#[trigger] out[j])@ == hex_string(palette[j]@),
        decreases palette.len() - i,
    {
        out.push(rgb2hex(&palette[i]));
        i = i + 1;
    }
    out
}

} // verus!
