use vstd::prelude::*;

verus! {

/// The character for one decimal digit.
pub open spec fn dec_digit_char(d: nat) -> char {
    if d == 0 {
        '0'
    } else if d == 1 {
        '1'
    } else if d == 2 {
        '2'
    } else if d == 3 {
        '3'
    } else if d == 4 {
        '4'
    } else if d == 5 {
        '5'
    } else if d == 6 {
        '6'
    } else if d == 7 {
        '7'
    } else if d == 8 {
        '8'
    } else {
        '9'
    }
}

/// The decimal representation of `n`, most significant digit first,
/// with no leading zeros (`0` is written as the single digit `0`).
pub open spec fn dec_chars(n: nat) -> Seq<char>
    decreases n,
{
    if n < 10 {
        seq![dec_digit_char(n)]
    } else {
        dec_chars(n / 10).push(dec_digit_char(n % 10))
    }
}

fn dec_digit(d: usize) -> (c: char)
    requires
        d < 10,
    ensures
        c == dec_digit_char(d as nat),
{
    if d == 0 {
        '0'
    } else if d == 1 {
        '1'
    } else if d == 2 {
        '2'
    } else if d == 3 {
        '3'
    } else if d == 4 {
        '4'
    } else if d == 5 {
        '5'
    } else if d == 6 {
        '6'
    } else if d == 7 {
        '7'
    } else if d == 8 {
        '8'
    } else {
        '9'
    }
}

/// Writes `n` in decimal, most significant digit first.
pub fn usize_dec_chars(n: usize) -> (r: Vec<char>)
    ensures
        r@ == dec_chars(n as nat),
    decreases n,
{
    if n < 10 {
        let mut r: Vec<char> = Vec::new();
        r.push(dec_digit(n));
        assert(r@ =~= dec_chars(n as nat));
        r
    } else {
        let mut r = usize_dec_chars(n / 10);
        r.push(dec_digit(n % 10));
        assert(r@ =~= dec_chars(n as nat));
        r
    }
}

/// Relies on `String::from_iter` over `char`: the string that collecting
/// an iterator of characters builds holds exactly those characters in order.
#[verifier::external_body]
pub fn chars_to_string(v: &Vec<char>) -> (r: String)
    ensures
        r@ == v@,
{
    v.iter().collect()
}

/// Appends every character of `src` to `dst`.
pub fn push_chars(dst: &mut Vec<char>, src: &Vec<char>)
    ensures
        final(dst)@ == old(dst)@ + src@,
{
    let mut i: usize = 0;
    while i < src.len()
        invariant
            i <= src.len(),
            dst@ == old(dst)@ + src@.take(i as int),
        decreases src.len() - i,
    {
        dst.push(src[i]);
        assert(old(dst)@ + src@.take(i + 1 as int) =~= (old(dst)@ + src@.take(i as int)).push(
            src@[i as int],
        ));
        i += 1;
    }
    assert(dst@ =~= old(dst)@ + src@);
}

/// Appends every character of the string slice `src` to `dst`.
pub fn push_str_chars(dst: &mut Vec<char>, src: &str)
    ensures
        final(dst)@ == old(dst)@ + src@,
{
    let n = src.unicode_len();
    let mut i: usize = 0;
    while i < n
        invariant
            n == src@.len(),
            i <= n,
            dst@ == old(dst)@ + src@.take(i as int),
        decreases n - i,
    {
        dst.push(src.get_char(i));
        assert(old(dst)@ + src@.take(i + 1 as int) =~= (old(dst)@ + src@.take(i as int)).push(
            src@[i as int],
        ));
        i += 1;
    }
    assert(dst@ =~= old(dst)@ + src@);
}

/// Compares two string slices character by character.
pub fn str_eq(a: &str, b: &str) -> (r: bool)
    ensures
        r == (a@ == b@),
{
    let na = a.unicode_len();
    let nb = b.unicode_len();
    if na != nb {
        return false;
    }
    let mut i: usize = 0;
    while i < na
        invariant
            na == a@.len(),
            na == b@.len(),
            i <= na,
            forall|j: int| 0 <= j < i ==> a@[j] == b@[j],
        decreases na - i,
    {
        if a.get_char(i) != b.get_char(i) {
            return false;
        }
        i += 1;
    }
    proof {
        assert(a@ =~= b@);
    }
    true
}

/// True when `s` starts with the root-node name prefix `topnode`.
pub open spec fn spec_has_topnode_prefix(s: Seq<char>) -> bool {
    s.len() >= 7 && s.take(7) =~= seq!['t', 'o', 'p', 'n', 'o', 'd', 'e']
}

/// Tests for the `topnode` name prefix that marks a root-level node.
pub fn has_topnode_prefix(s: &str) -> (b: bool)
    ensures
        b == spec_has_topnode_prefix(s@),
{
    let n = s.unicode_len();
    if n < 7 {
        return false;
    }
    let b = s.get_char(0) == 't' && s.get_char(1) == 'o' && s.get_char(2) == 'p' && s.get_char(3)
        == 'n' && s.get_char(4) == 'o' && s.get_char(5) == 'd' && s.get_char(6) == 'e';
    proof {
        let p = seq!['t', 'o', 'p', 'n', 'o', 'd', 'e'];
        if b {
            assert(s@.take(7) =~= p);
        } else {
            assert(!(s@.take(7) =~= p)) by {
                if s@.take(7) =~= p {
                    assert(s@[0] == 't' && s@[1] == 'o' && s@[2] == 'p' && s@[3] == 'n' && s@[4]
                        == 'o' && s@[5] == 'd' && s@[6] == 'e') by {
                        assert(forall|i: int| 0 <= i < 7 ==> s@.take(7)[i] == s@[i]);
                    }
                }
            };
        }
    }
    b
}

} // verus!
