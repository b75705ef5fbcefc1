use vstd::prelude::*;

verus! {

/// Characters that separate tokens.
pub open spec fn is_space(c: char) -> bool {
    c == ' ' || c == '\t' || c == '\r' || c == '\n'
}

/// The tokens of `s[i..]` when a token started at `start` (`start == i`
/// when none has).
pub open spec fn words_from(s: Seq<char>, i: int, start: int) -> Seq<Seq<char>>
    decreases s.len() - i,
{
    if i >= s.len() {
        if start < s.len() {
            seq![s.subrange(start, s.len() as int)]
        } else {
            seq![]
        }
    } else if is_space(s[i]) {
        (if start < i {
            seq![s.subrange(start, i)]
        } else {
            seq![]
        }) + words_from(s, i + 1, i + 1)
    } else {
        words_from(s, i + 1, start)
    }
}

/// The maximal runs of non-space characters of `s`, in order.
pub open spec fn words(s: Seq<char>) -> Seq<Seq<char>> {
    words_from(s, 0, 0)
}

/// The views of a sequence of string slices.
pub open spec fn views(v: Seq<&str>) -> Seq<Seq<char>> {
    v.map_values(|t: &str| t@)
}

/// The value of a hexadecimal digit, either case.
pub open spec fn hex_digit(c: char) -> Option<int> {
    if '0' <= c && c <= '9' {
        Some(c as int - '0' as int)
    } else if 'a' <= c && c <= 'f' {
        Some(c as int - 'a' as int + 10)
    } else if 'A' <= c && c <= 'F' {
        Some(c as int - 'A' as int + 10)
    } else {
        None
    }
}

/// Every character is a hexadecimal digit.
pub open spec fn all_hex(s: Seq<char>) -> bool {
    forall|k: int| 0 <= k < s.len() ==> (#[trigger] hex_digit(s[k])) is Some
}

/// The number that the hexadecimal digits `s` spell.
pub open spec fn hex_value(s: Seq<char>) -> int
    decreases s.len(),
{
    if s.len() == 0 {
        0
    } else {
        hex_value(s.drop_last()) * 16 + hex_digit(s.last()).unwrap()
    }
}

/// The 16-bit number that `s` spells in hexadecimal, if it spells one.
pub open spec fn hex_u16(s: Seq<char>) -> Option<u16> {
    if s.len() > 0 && all_hex(s) && hex_value(s) <= 0xFFFF {
        Some(hex_value(s) as u16)
    } else {
        None
    }
}

/// Splits `line` into its whitespace-separated tokens.
pub fn words_of<'a>(line: &'a str) -> (r: Vec<&'a str>)
    ensures
        views(r@) == words(line@),
{
    let n = line.unicode_len();
    let mut out: Vec<&'a str> = Vec::new();
    let mut start: usize = 0;
    let mut i: usize = 0;
    while i < n
        invariant
            n == line@.len(),
            start <= i <= n,
            views(out@) + words_from(line@, i as int, start as int) == words(line@),
        decreases n - i,
    {
        let c = line.get_char(i);
        if c == ' ' || c == '\t' || c == '\r' || c == '\n' {
            if start < i {
                let t = line.substring_char(start, i);
                let ghost before = views(out@);
                out.push(t);
                proof {
                    assert(views(out@) =~= before.push(t@));
                    assert(before + words_from(line@, i as int, start as int) =~= views(out@)
                        + words_from(line@, i + 1, i + 1));
                }
            } else {
                assert(words_from(line@, i as int, start as int) =~= words_from(line@, i + 1, i + 1));
            }
            start = i + 1;
        }
        i += 1;
    }
    if start < n {
        let t = line.substring_char(start, n);
        let ghost before = views(out@);
        out.push(t);
        proof {
            assert(views(out@) =~= before.push(t@));
            assert(before + words_from(line@, i as int, start as int) =~= views(out@));
        }
    } else {
        assert(views(out@) + words_from(line@, i as int, start as int) =~= views(out@));
    }
    out
}

/// The value of the hexadecimal text `t`, or `None` when `t` is empty, holds
/// a character that is no hexadecimal digit, or spells a number above 0xFFFF.
pub fn parse_hex(t: &str) -> (r: Option<u16>)
    ensures
        r == hex_u16(t@),
{
    let n = t.unicode_len();
    let mut acc: u32 = 0;
    let mut i: usize = 0;
    while i < n
        invariant
            n == t@.len(),
            i <= n,
            all_hex(t@.subrange(0, i as int)),
            acc as int == if hex_value(t@.subrange(0, i as int)) > 0xFFFF {
                0x10000
            } else {
                hex_value(t@.subrange(0, i as int))
            },
        decreases n - i,
    {
        let c = t.get_char(i);
        let d: u32 = if '0' <= c && c <= '9' {
            c as u32 - '0' as u32
        } else if 'a' <= c && c <= 'f' {
            c as u32 - 'a' as u32 + 10
        } else if 'A' <= c && c <= 'F' {
            c as u32 - 'A' as u32 + 10
        } else {
            proof {
                assert(hex_digit(t@[i as int]) is None);
                assert(!all_hex(t@));
            }
            return None;
        };
        proof {
            let p = t@.subrange(0, i + 1);
            assert(p.drop_last() =~= t@.subrange(0, i as int));
            assert(p.last() == c);
            assert(all_hex(p)) by {
                assert forall|k: int| 0 <= k < p.len() implies (#[trigger] hex_digit(p[k])) is Some by {
                    if k < i {
                        assert(p[k] == t@.subrange(0, i as int)[k]);
                    }
                }
            }
        }
        acc = acc * 16 + d;
        if acc > 0x10000 {
            acc = 0x10000;
        }
        i += 1;
    }
    assert(t@.subrange(0, n as int) =~= t@);
    if n == 0 || acc > 0xFFFF {
        None
    } else {
        Some(acc as u16)
    }
}

/// The digit of value `n` (below 16), upper case.
pub open spec fn digit_char(n: int) -> char {
    seq!['0', '1', '2', '3', '4', '5', '6', '7', '8', '9', 'A', 'B', 'C', 'D', 'E', 'F'][n]
}

/// The decimal digits of `n`, without leading zeros.
pub open spec fn decimal_chars(n: nat) -> Seq<char>
    decreases n,
{
    if n < 10 {
        seq![digit_char(n as int)]
    } else {
        decimal_chars(n / 10).push(digit_char((n % 10) as int))
    }
}

/// The four upper-case hexadecimal digits of `w`.
pub open spec fn hex_word_chars(w: u16) -> Seq<char> {
    seq![
        digit_char(w as int / 4096),
        digit_char((w as int / 256) % 16),
        digit_char((w as int / 16) % 16),
        digit_char(w as int % 16),
    ]
}

/// The one-character text of the digit `n`.
fn digit_str(n: u8) -> (r: &'static str)
    requires
        n < 16,
    ensures
        r@ == seq![digit_char(n as int)],
{
    match n {
        0 => {
            proof {
                reveal_strlit("0");
            }
            assert("0"@ =~= seq![digit_char(0)]);
            "0"
        },
        1 => {
            proof {
                reveal_strlit("1");
            }
            assert("1"@ =~= seq![digit_char(1)]);
            "1"
        },
        2 => {
            proof {
                reveal_strlit("2");
            }
            assert("2"@ =~= seq![digit_char(2)]);
            "2"
        },
        3 => {
            proof {
                reveal_strlit("3");
            }
            assert("3"@ =~= seq![digit_char(3)]);
            "3"
        },
        4 => {
            proof {
                reveal_strlit("4");
            }
            assert("4"@ =~= seq![digit_char(4)]);
            "4"
        },
        5 => {
            proof {
                reveal_strlit("5");
            }
            assert("5"@ =~= seq![digit_char(5)]);
            "5"
        },
        6 => {
            proof {
                reveal_strlit("6");
            }
            assert("6"@ =~= seq![digit_char(6)]);
            "6"
        },
        7 => {
            proof {
                reveal_strlit("7");
            }
            assert("7"@ =~= seq![digit_char(7)]);
            "7"
        },
        8 => {
            proof {
                reveal_strlit("8");
            }
            assert("8"@ =~= seq![digit_char(8)]);
            "8"
        },
        9 => {
            proof {
                reveal_strlit("9");
            }
            assert("9"@ =~= seq![digit_char(9)]);
            "9"
        },
        10 => {
            proof {
                reveal_strlit("A");
            }
            assert("A"@ =~= seq![digit_char(10)]);
            "A"
        },
        11 => {
            proof {
                reveal_strlit("B");
            }
            assert("B"@ =~= seq![digit_char(11)]);
            "B"
        },
        12 => {
            proof {
                reveal_strlit("C");
            }
            assert("C"@ =~= seq![digit_char(12)]);
            "C"
        },
        13 => {
            proof {
                reveal_strlit("D");
            }
            assert("D"@ =~= seq![digit_char(13)]);
            "D"
        },
        14 => {
            proof {
                reveal_strlit("E");
            }
            assert("E"@ =~= seq![digit_char(14)]);
            "E"
        },
        15 => {
            proof {
                reveal_strlit("F");
            }
            assert("F"@ =~= seq![digit_char(15)]);
            "F"
        },
        _ => {
            proof {
                reveal_strlit("F");
            }
            assert("F"@ =~= seq![digit_char(15)]);
            "F"
        },
    }
}

/// `n` in decimal.
pub fn decimal(n: usize) -> (r: String)
    ensures
        r@ == decimal_chars(n as nat),
    decreases n,
{
    if n < 10 {
        String::from_str(digit_str(n as u8))
    } else {
        let high = decimal(n / 10);
        let r = high.concat(digit_str((n % 10) as u8));
        assert(r@ =~= decimal_chars(n as nat));
        r
    }
}

/// `w` as four upper-case hexadecimal digits.
pub fn hex_word(w: u16) -> (r: String)
    ensures
        r@ == hex_word_chars(w),
{
    let r = String::from_str(digit_str((w / 4096) as u8)).concat(
        digit_str(((w / 256) % 16) as u8),
    ).concat(digit_str(((w / 16) % 16) as u8)).concat(digit_str((w % 16) as u8));
    assert(r@ =~= hex_word_chars(w));
    r
}

} // verus!
