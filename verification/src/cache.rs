use vstd::prelude::*;

use crate::json::quote_into;
use crate::strutil::{chars_to_string, dec_chars, dec_digit_char, push_chars, push_str_chars, usize_dec_chars};

verus! {

/// The key under which a completion query is cached: a JSON object
/// with exactly the fields `query`, `num_comps`, `retries` and
/// `stop_at`, in that order. It is a function of those four values
/// alone, so equal queries share an entry and a change to any of the
/// four addresses a different one.
pub open spec fn cache_key_spec(
    query: Seq<char>,
    num_comps: nat,
    retries: nat,
    stop_at: nat,
) -> Seq<char> {
    seq!['{', '"', 'q', 'u', 'e', 'r', 'y', '"', ':'] + crate::json::quoted(query) + seq![
        ',',
        '"',
        'n',
        'u',
        'm',
        '_',
        'c',
        'o',
        'm',
        'p',
        's',
        '"',
        ':',
    ] + dec_chars(num_comps) + seq![',', '"', 'r', 'e', 't', 'r', 'i', 'e', 's', '"', ':']
        + dec_chars(retries) + seq![',', '"', 's', 't', 'o', 'p', '_', 'a', 't', '"', ':']
        + dec_chars(stop_at) + seq!['}']
}

/// Writes the cache key for one query.
pub fn cache_key(query: &str, num_comps: usize, retries: usize, stop_at: usize) -> (r: String)
    ensures
        r@ == cache_key_spec(query@, num_comps as nat, retries as nat, stop_at as nat),
{
    let mut out: Vec<char> = Vec::new();
    push_str_chars(&mut out, "{\"query\":");
    proof {
        reveal_strlit("{\"query\":");
        assert("{\"query\":"@ =~= seq!['{', '"', 'q', 'u', 'e', 'r', 'y', '"', ':']);
    }
    quote_into(&mut out, query);
    push_str_chars(&mut out, ",\"num_comps\":");
    proof {
        reveal_strlit(",\"num_comps\":");
        assert(",\"num_comps\":"@ =~= seq![
            ',',
            '"',
            'n',
            'u',
            'm',
            '_',
            'c',
            'o',
            'm',
            'p',
            's',
            '"',
            ':',
        ]);
    }
    let d1 = usize_dec_chars(num_comps);
    push_chars(&mut out, &d1);
    push_str_chars(&mut out, ",\"retries\":");
    proof {
        reveal_strlit(",\"retries\":");
        assert(",\"retries\":"@ =~= seq![',', '"', 'r', 'e', 't', 'r', 'i', 'e', 's', '"', ':']);
    }
    let d2 = usize_dec_chars(retries);
    push_chars(&mut out, &d2);
    push_str_chars(&mut out, ",\"stop_at\":");
    proof {
        reveal_strlit(",\"stop_at\":");
        assert(",\"stop_at\":"@ =~= seq![',', '"', 's', 't', 'o', 'p', '_', 'a', 't', '"', ':']);
    }
    let d3 = usize_dec_chars(stop_at);
    push_chars(&mut out, &d3);
    out.push('}');
    proof {
        assert(out@ =~= cache_key_spec(query@, num_comps as nat, retries as nat, stop_at as nat));
    }
    chars_to_string(&out)
}


/// A decimal digit character.
pub open spec fn is_dec_digit(c: char) -> bool {
    c == '0' || c == '1' || c == '2' || c == '3' || c == '4' || c == '5' || c == '6' || c == '7'
        || c == '8' || c == '9'
}

proof fn lemma_dec_chars_digits(n: nat)
    ensures
        forall|i: int| 0 <= i < dec_chars(n).len() ==> is_dec_digit(#[trigger] dec_chars(n)[i]),
        dec_chars(n).len() >= 1,
        n >= 10 ==> dec_chars(n).len() >= 2,
    decreases n,
{
    if n >= 10 {
        lemma_dec_chars_digits(n / 10);
        assert forall|i: int| 0 <= i < dec_chars(n).len() implies is_dec_digit(
            #[trigger] dec_chars(n)[i],
        ) by {
            if i < dec_chars(n).len() - 1 {
                assert(dec_chars(n)[i] == dec_chars(n / 10)[i]);
            }
        }
    }
}

#[verifier::rlimit(50)]
proof fn lemma_digit_boundary(d1: Seq<char>, d2: Seq<char>, x: Seq<char>, y: Seq<char>)
    requires
        forall|i: int| 0 <= i < d1.len() ==> is_dec_digit(#[trigger] d1[i]),
        forall|i: int| 0 <= i < d2.len() ==> is_dec_digit(#[trigger] d2[i]),
        x.len() > 0,
        y.len() > 0,
        !is_dec_digit(x[0]),
        !is_dec_digit(y[0]),
        d1 + x == d2 + y,
    ensures
        d1 == d2,
        x == y,
{
    if d1.len() < d2.len() {
        assert((d1 + x)[d1.len() as int] == x[0]);
        assert((d2 + y)[d1.len() as int] == d2[d1.len() as int]);
        assert(false);
    }
    if d2.len() < d1.len() {
        assert((d2 + y)[d2.len() as int] == y[0]);
        assert((d1 + x)[d2.len() as int] == d1[d2.len() as int]);
        assert(false);
    }
    assert(forall|i: int| 0 <= i < d1.len() ==> (d1 + x)[i] == d1[i] && (d2 + y)[i] == d2[i]);
    assert(d1 =~= d2);
    assert((d1 + x).len() == (d2 + y).len());
    assert((d1 + x).len() == d1.len() + x.len());
    assert((d2 + y).len() == d2.len() + y.len());
    assert(x.len() == y.len());
    assert forall|i: int| 0 <= i < x.len() implies x[i] == y[i] by {
        assert((d1 + x)[d1.len() + i] == x[i]);
        assert((d2 + y)[d2.len() + i] == y[i]);
    }
    assert(x =~= y);
}

proof fn lemma_dec_chars_injective(n1: nat, n2: nat)
    requires
        dec_chars(n1) == dec_chars(n2),
    ensures
        n1 == n2,
    decreases n1,
{
    lemma_dec_chars_digits(n1);
    lemma_dec_chars_digits(n2);
    if n1 < 10 && n2 < 10 {
        assert(dec_chars(n1)[0] == dec_digit_char(n1));
        assert(dec_chars(n2)[0] == dec_digit_char(n2));
    } else if n1 >= 10 && n2 >= 10 {
        assert(dec_chars(n1).last() == dec_digit_char(n1 % 10));
        assert(dec_chars(n2).last() == dec_digit_char(n2 % 10));
        assert(n1 % 10 == n2 % 10);
        assert(dec_chars(n1).drop_last() == dec_chars(n1 / 10));
        assert(dec_chars(n2).drop_last() == dec_chars(n2 / 10));
        lemma_dec_chars_injective(n1 / 10, n2 / 10);
    } else {
        assert(dec_chars(n1).len() != dec_chars(n2).len());
        assert(false);
    }
}

#[verifier::rlimit(50)]
proof fn lemma_concat_cancel_left(a: Seq<char>, b: Seq<char>, c: Seq<char>)
    requires
        a + b == a + c,
    ensures
        b == c,
{
    assert((a + b).len() == (a + c).len());
    assert((a + b).len() == a.len() + b.len());
    assert((a + c).len() == a.len() + c.len());
    assert(b.len() == c.len());
    assert forall|i: int| 0 <= i < b.len() implies b[i] == c[i] by {
        assert((a + b)[a.len() + i] == b[i]);
        assert((a + c)[a.len() + i] == c[i]);
    }
    assert(b =~= c);
}

/// With the query text fixed, the cache key pins down the three
/// numeric knobs: two keys written for the same query agree exactly
/// when `num_comps`, `retries` and `stop_at` all agree — so changing
/// any of them addresses a different entry.
#[verifier::rlimit(100)]
pub proof fn lemma_cache_key_fixes_params(
    q: Seq<char>,
    n1: nat,
    r1: nat,
    s1: nat,
    n2: nat,
    r2: nat,
    s2: nat,
)
    requires
        cache_key_spec(q, n1, r1, s1) == cache_key_spec(q, n2, r2, s2),
    ensures
        n1 == n2,
        r1 == r2,
        s1 == s2,
{
    let head = seq!['{', '"', 'q', 'u', 'e', 'r', 'y', '"', ':'] + crate::json::quoted(q) + seq![
        ',',
        '"',
        'n',
        'u',
        'm',
        '_',
        'c',
        'o',
        'm',
        'p',
        's',
        '"',
        ':',
    ];
    let m1 = seq![',', '"', 'r', 'e', 't', 'r', 'i', 'e', 's', '"', ':'];
    let m2 = seq![',', '"', 's', 't', 'o', 'p', '_', 'a', 't', '"', ':'];
    let tail1 = dec_chars(n1) + (m1 + dec_chars(r1) + (m2 + dec_chars(s1) + seq!['}']));
    let tail2 = dec_chars(n2) + (m1 + dec_chars(r2) + (m2 + dec_chars(s2) + seq!['}']));
    assert(cache_key_spec(q, n1, r1, s1) =~= head + tail1);
    assert(cache_key_spec(q, n2, r2, s2) =~= head + tail2);
    lemma_concat_cancel_left(head, tail1, tail2);
    lemma_dec_chars_digits(n1);
    lemma_dec_chars_digits(n2);
    lemma_dec_chars_digits(r1);
    lemma_dec_chars_digits(r2);
    lemma_dec_chars_digits(s1);
    lemma_dec_chars_digits(s2);
    let x1 = m1 + dec_chars(r1) + (m2 + dec_chars(s1) + seq!['}']);
    let x2 = m1 + dec_chars(r2) + (m2 + dec_chars(s2) + seq!['}']);
    assert(tail1 == dec_chars(n1) + x1) by {
        assert(tail1 =~= dec_chars(n1) + x1);
    };
    assert(tail2 == dec_chars(n2) + x2) by {
        assert(tail2 =~= dec_chars(n2) + x2);
    };
    assert(x1[0] == ',' && x2[0] == ',');
    lemma_digit_boundary(dec_chars(n1), dec_chars(n2), x1, x2);
    lemma_dec_chars_injective(n1, n2);
    assert(x1 == m1 + (dec_chars(r1) + (m2 + dec_chars(s1) + seq!['}']))) by {
        assert(m1 + (dec_chars(r1) + (m2 + dec_chars(s1) + seq!['}'])) =~= x1);
    };
    assert(x2 == m1 + (dec_chars(r2) + (m2 + dec_chars(s2) + seq!['}']))) by {
        assert(m1 + (dec_chars(r2) + (m2 + dec_chars(s2) + seq!['}'])) =~= x2);
    };
    lemma_concat_cancel_left(
        m1,
        dec_chars(r1) + (m2 + dec_chars(s1) + seq!['}']),
        dec_chars(r2) + (m2 + dec_chars(s2) + seq!['}']),
    );
    let y1 = m2 + dec_chars(s1) + seq!['}'];
    let y2 = m2 + dec_chars(s2) + seq!['}'];
    assert(y1[0] == ',' && y2[0] == ',');
    lemma_digit_boundary(dec_chars(r1), dec_chars(r2), y1, y2);
    lemma_dec_chars_injective(r1, r2);
    assert(y1 == m2 + (dec_chars(s1) + seq!['}'])) by {
        assert(m2 + (dec_chars(s1) + seq!['}']) =~= y1);
    };
    assert(y2 == m2 + (dec_chars(s2) + seq!['}'])) by {
        assert(m2 + (dec_chars(s2) + seq!['}']) =~= y2);
    };
    lemma_concat_cancel_left(m2, dec_chars(s1) + seq!['}'], dec_chars(s2) + seq!['}']);
    lemma_digit_boundary(dec_chars(s1), dec_chars(s2), seq!['}'], seq!['}']);
    lemma_dec_chars_injective(s1, s2);
}

} // verus!
