use vstd::prelude::*;

use crate::strutil::{chars_to_string, dec_digit_char, push_str_chars};

verus! {

/// The character for one lower-case hexadecimal digit.
pub open spec fn hex_digit_char(d: nat) -> char {
    if d < 10 {
        dec_digit_char(d)
    } else if d == 10 {
        'a'
    } else if d == 11 {
        'b'
    } else if d == 12 {
        'c'
    } else if d == 13 {
        'd'
    } else if d == 14 {
        'e'
    } else {
        'f'
    }
}

/// How one character is written inside a JSON string literal: quotes and
/// backslashes get a backslash escape, control characters a `\u00xx`
/// escape with lower-case hex digits, and every other character stands
/// for itself.
pub open spec fn esc_char(c: char) -> Seq<char> {
    if c == '"' {
        seq!['\\', '"']
    } else if c == '\\' {
        seq!['\\', '\\']
    } else if (c as int) < 32 {
        seq![
            '\\',
            'u',
            '0',
            '0',
            hex_digit_char((c as int / 16) as nat),
            hex_digit_char((c as int % 16) as nat),
        ]
    } else {
        seq![c]
    }
}

/// The body of a JSON string literal: each character escaped in turn.
pub open spec fn esc_seq(s: Seq<char>) -> Seq<char>
    decreases s.len(),
{
    if s.len() == 0 {
        Seq::empty()
    } else {
        esc_seq(s.drop_last()) + esc_char(s.last())
    }
}

/// A whole JSON string literal, quotes included.
pub open spec fn quoted(s: Seq<char>) -> Seq<char> {
    seq!['"'] + esc_seq(s) + seq!['"']
}

/// The comma-separated items of a JSON array of strings.
pub open spec fn string_list_body(vs: Seq<Seq<char>>) -> Seq<char>
    decreases vs.len(),
{
    if vs.len() == 0 {
        Seq::empty()
    } else if vs.len() == 1 {
        quoted(vs[0])
    } else {
        string_list_body(vs.drop_last()) + seq![','] + quoted(vs.last())
    }
}

/// A JSON array of string literals, brackets included.
pub open spec fn string_list(vs: Seq<Seq<char>>) -> Seq<char> {
    seq!['['] + string_list_body(vs) + seq![']']
}

fn hex_digit(d: usize) -> (c: char)
    requires
        d < 16,
    ensures
        c == hex_digit_char(d as nat),
{
    if d == 0 {
        '0'
    } else if d == 1 {
        '1'
    } else if d == 2 {
        '2'
    } else if d == 3 {
        '3'
    } else if d == 4 {
        '4'
    } else if d == 5 {
        '5'
    } else if d == 6 {
        '6'
    } else if d == 7 {
        '7'
    } else if d == 8 {
        '8'
    } else if d == 9 {
        '9'
    } else if d == 10 {
        'a'
    } else if d == 11 {
        'b'
    } else if d == 12 {
        'c'
    } else if d == 13 {
        'd'
    } else if d == 14 {
        'e'
    } else {
        'f'
    }
}

/// Appends the escaped form of `s` to `out`.
pub fn escape_into(out: &mut Vec<char>, s: &str)
    ensures
        final(out)@ == old(out)@ + esc_seq(s@),
{
    let n = s.unicode_len();
    let mut i: usize = 0;
    while i < n
        invariant
            n == s@.len(),
            i <= n,
            out@ == old(out)@ + esc_seq(s@.take(i as int)),
        decreases n - i,
    {
        let c = s.get_char(i);
        if c == '"' {
            out.push('\\');
            out.push('"');
        } else if c == '\\' {
            out.push('\\');
            out.push('\\');
        } else {
            let u = c as u32;
            if u < 32 {
                out.push('\\');
                out.push('u');
                out.push('0');
                out.push('0');
                out.push(hex_digit((u / 16) as usize));
                out.push(hex_digit((u % 16) as usize));
            } else {
                out.push(c);
            }
        }
        proof {
            assert(s@.take(i + 1 as int).drop_last() =~= s@.take(i as int));
            assert(s@.take(i + 1 as int).last() == s@[i as int]);
            assert(out@ =~= old(out)@ + esc_seq(s@.take(i + 1 as int)));
        }
        i += 1;
    }
    proof {
        assert(s@.take(n as int) =~= s@);
    }
}

/// Appends `s` as a complete JSON string literal to `out`.
pub fn quote_into(out: &mut Vec<char>, s: &str)
    ensures
        final(out)@ == old(out)@ + quoted(s@),
{
    out.push('"');
    escape_into(out, s);
    out.push('"');
    proof {
        assert(out@ =~= old(out)@ + quoted(s@));
    }
}

/// Writes a list of strings as a JSON array of string literals.
pub fn encode_string_list(items: &Vec<String>) -> (r: Vec<char>)
    ensures
        r@ == string_list(items.deep_view()),
{
    let ghost vs = items.deep_view();
    let mut out: Vec<char> = Vec::new();
    out.push('[');
    let mut i: usize = 0;
    while i < items.len()
        invariant
            i <= items.len(),
            vs == items.deep_view(),
            vs.len() == items.len(),
            forall|j: int| 0 <= j < items.len() ==> vs[j] == items[j]@,
            out@ == seq!['['] + string_list_body(vs.take(i as int)),
        decreases items.len() - i,
    {
        if i > 0 {
            out.push(',');
        }
        quote_into(&mut out, items[i].as_str());
        proof {
            assert(vs.take(i + 1 as int).drop_last() =~= vs.take(i as int));
            assert(vs.take(i + 1 as int).last() == vs[i as int]);
            if i == 0 {
                assert(vs.take(1int).len() == 1);
            }
            assert(out@ =~= seq!['['] + string_list_body(vs.take(i + 1 as int)));
        }
        i += 1;
    }
    out.push(']');
    proof {
        assert(vs.take(items.len() as int) =~= vs);
        assert(out@ =~= string_list(vs));
    }
    out
}

fn hex_val(c: char) -> (r: Option<usize>)
    ensures
        r matches Some(v) ==> v < 16 && c == hex_digit_char(v as nat),
        r is None ==> forall|d: nat| d < 16 ==> c != hex_digit_char(d),
{
    if c == '0' {
        Some(0)
    } else if c == '1' {
        Some(1)
    } else if c == '2' {
        Some(2)
    } else if c == '3' {
        Some(3)
    } else if c == '4' {
        Some(4)
    } else if c == '5' {
        Some(5)
    } else if c == '6' {
        Some(6)
    } else if c == '7' {
        Some(7)
    } else if c == '8' {
        Some(8)
    } else if c == '9' {
        Some(9)
    } else if c == 'a' {
        Some(10)
    } else if c == 'b' {
        Some(11)
    } else if c == 'c' {
        Some(12)
    } else if c == 'd' {
        Some(13)
    } else if c == 'e' {
        Some(14)
    } else if c == 'f' {
        Some(15)
    } else {
        proof {
            assert forall|d: nat| d < 16 implies c != hex_digit_char(d) by {
                if d < 10 {
                    assert(hex_digit_char(d) == dec_digit_char(d));
                }
            }
        }
        None
    }
}

/// Reads a JSON array of string literals written by `encode_string_list`.
/// Only that canonical form is accepted: a successful parse means the
/// input is exactly the encoding of the returned list.
pub fn parse_string_list(s: &str) -> (r: Option<Vec<String>>)
    ensures
        r matches Some(u) ==> s@ == string_list(u.deep_view()),
        s@ == string_list(Seq::<Seq<char>>::empty()) ==> (r matches Some(u) && u.deep_view()
            == Seq::<Seq<char>>::empty()),
{
    proof {
        if s@ == string_list(Seq::<Seq<char>>::empty()) {
            assert(string_list_body(Seq::<Seq<char>>::empty()) == Seq::<char>::empty());
            assert(s@ =~= seq!['[', ']']);
        }
    }
    let n = s.unicode_len();
    if n < 2 {
        return None;
    }
    if s.get_char(0) != '[' {
        return None;
    }
    if s.get_char(1) == ']' {
        if n == 2 {
            let out: Vec<String> = Vec::new();
            proof {
                assert(out.deep_view().len() == 0);
                assert(s@ =~= string_list(out.deep_view())) by {
                    assert(s@ =~= seq![s@[0], s@[1]]);
                }
            }
            return Some(out);
        } else {
            return None;
        }
    }
    let mut out: Vec<String> = Vec::new();
    let mut p: usize = 1;
    proof {
        if s@ == string_list(Seq::<Seq<char>>::empty()) {
            assert(string_list_body(Seq::<Seq<char>>::empty()) == Seq::<char>::empty());
            assert(s@ =~= seq!['[', ']']);
            assert(false);
        }
    }
    loop
        invariant
            s@ != string_list(Seq::<Seq<char>>::empty()),
            n == s@.len(),
            2 <= n,
            1 <= p <= n,
            s@.take(p as int) == seq!['['] + string_list_body(out.deep_view()) + (
            if out.deep_view().len() > 0 {
                seq![',']
            } else {
                Seq::<char>::empty()
            }),
        decreases n - p,
    {
        let ghost vs0 = out.deep_view();
        if p >= n || s.get_char(p) != '"' {
            return None;
        }
        p += 1;
        let mut cur: Vec<char> = Vec::new();
        let ghost q0 = p as int;
        proof {
            assert(s@.take(q0) =~= s@.take(q0 - 1).push(s@[q0 - 1]));
            assert(s@.take(q0) =~= seq!['['] + string_list_body(vs0) + (
            if vs0.len() > 0 {
                seq![',']
            } else {
                Seq::<char>::empty()
            }) + seq!['"']);
        }
        loop
            invariant_except_break
                s@ != string_list(Seq::<Seq<char>>::empty()),
                n == s@.len(),
                q0 <= p <= n,
                s@.take(p as int) == s@.take(q0) + esc_seq(cur@),
            ensures
                q0 <= p <= n,
                s@.take(p as int) == s@.take(q0) + esc_seq(cur@) + seq!['"'],
            decreases n - p,
        {
            if p >= n {
                return None;
            }
            let c = s.get_char(p);
            if c == '"' {
                p += 1;
                proof {
                    assert(s@.take(p as int) =~= s@.take(p - 1).push(s@[p - 1]));
                    assert(s@.take(p as int) =~= s@.take(q0) + esc_seq(cur@) + seq!['"']);
                }
                break ;
            } else if c == '\\' {
                if n - p < 2 {
                    return None;
                }
                let d = s.get_char(p + 1);
                if d == '"' {
                    let ghost prev = cur@;
                    cur.push('"');
                    p += 2;
                    proof {
                        assert(cur@.drop_last() =~= prev);
                        assert(s@.take(p as int) =~= s@.take(p - 2).push(s@[p - 2]).push(
                            s@[p - 1],
                        ));
                        assert(s@.take(p as int) =~= s@.take(q0) + esc_seq(cur@));
                    }
                } else if d == '\\' {
                    let ghost prev = cur@;
                    cur.push('\\');
                    p += 2;
                    proof {
                        assert(cur@.drop_last() =~= prev);
                        assert(s@.take(p as int) =~= s@.take(p - 2).push(s@[p - 2]).push(
                            s@[p - 1],
                        ));
                        assert(s@.take(p as int) =~= s@.take(q0) + esc_seq(cur@));
                    }
                } else if d == 'u' {
                    if n - p < 6 {
                        return None;
                    }
                    if s.get_char(p + 2) != '0' || s.get_char(p + 3) != '0' {
                        return None;
                    }
                    let h1 = match hex_val(s.get_char(p + 4)) {
                        Some(v) => v,
                        None => {
                            return None;
                        },
                    };
                    let h2 = match hex_val(s.get_char(p + 5)) {
                        Some(v) => v,
                        None => {
                            return None;
                        },
                    };
                    let v = h1 * 16 + h2;
                    if v >= 32 {
                        return None;
                    }
                    let c2 = (v as u8) as char;
                    let ghost prev = cur@;
                    cur.push(c2);
                    p += 6;
                    proof {
                        assert(cur@.drop_last() =~= prev);
                        assert(c2 as int == v);
                        assert(c2 != '"' && c2 != '\\');
                        assert(esc_char(c2) == seq![
                            '\\',
                            'u',
                            '0',
                            '0',
                            hex_digit_char((v / 16) as nat),
                            hex_digit_char((v % 16) as nat),
                        ]);
                        assert(h1 == v / 16 && h2 == v % 16);
                        assert(s@.take(p as int) =~= s@.take(p - 6).push(s@[p - 6]).push(
                            s@[p - 5],
                        ).push(s@[p - 4]).push(s@[p - 3]).push(s@[p - 2]).push(s@[p - 1]));
                        assert(s@.take(p as int) =~= s@.take(q0) + esc_seq(cur@));
                    }
                } else {
                    return None;
                }
            } else {
                let u = c as u32;
                if u < 32 {
                    return None;
                }
                let ghost prev = cur@;
                cur.push(c);
                p += 1;
                proof {
                    assert(cur@.drop_last() =~= prev);
                    assert(esc_char(c) =~= seq![c]);
                    assert(s@.take(p as int) =~= s@.take(p - 1).push(s@[p - 1]));
                    assert(s@.take(p as int) =~= s@.take(q0) + esc_seq(cur@));
                }
            }
        }
        // the closing quote of the item has been consumed
        let item = chars_to_string(&cur);
        out.push(item);
        proof {
            assert(out.deep_view().drop_last() =~= vs0);
            assert(out.deep_view().last() == cur@);
            assert(s@.take(p as int) =~= s@.take(q0) + esc_seq(cur@) + seq!['"']);
            if vs0.len() == 0 {
                assert(out.deep_view().len() == 1);
                assert(out.deep_view()[0] == cur@);
                assert(string_list_body(out.deep_view()) == quoted(cur@));
            } else {
                assert(string_list_body(out.deep_view()) == string_list_body(vs0) + seq![',']
                    + quoted(cur@));
            }
            assert(s@.take(p as int) =~= seq!['['] + string_list_body(out.deep_view()));
        }
        if p >= n {
            return None;
        }
        let c = s.get_char(p);
        if c == ']' {
            if p + 1 == n {
                proof {
                    assert(s@ =~= s@.take(p as int).push(s@[p as int]));
                    assert(s@ =~= string_list(out.deep_view()));
                }
                return Some(out);
            } else {
                return None;
            }
        } else if c == ',' {
            p += 1;
            proof {
                assert(s@.take(p as int) =~= seq!['['] + string_list_body(out.deep_view()) + seq![
                    ',',
                ]);
            }
        } else {
            return None;
        }
    }
}

/// Writes a list of strings as a JSON array, as one `String`.
pub fn string_list_to_string(items: &Vec<String>) -> (r: String)
    ensures
        r@ == string_list(items.deep_view()),
{
    let v = encode_string_list(items);
    chars_to_string(&v)
}

} // verus!
