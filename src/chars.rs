//! Moving between `&str` and its characters.
//!
//! The grammar works on a `Vec<char>` with explicit positions; these helpers
//! turn a string into its characters and cut a string after a given number
//! of characters.
use vstd::prelude::*;
use vstd::std_specs::iter::IteratorSpec;
use vstd::string::StringSliceAdditionalSpecFns;
use vstd::utf8::*;

verus! {

broadcast use vstd::std_specs::vec::group_vec_axioms;

/// The characters of `s`, in order.
pub fn to_chars(s: &str) -> (v: Vec<char>)
    ensures
        v@ == s@,
{
    let mut v: Vec<char> = Vec::new();
    let mut it = s.chars();
    proof {
        broadcast use vstd::string::axiom_spec_iter;
    }
    loop
        invariant
            s@ == v@ + it.remaining(),
            it.obeys_prophetic_iter_laws(),
            it.decrease() is Some,
        ensures
            s@ == v@,
        decreases it.decrease()->0,
    {
        match it.next() {
            Some(c) => {
                v.push(c);
                assert(s@ =~= v@ + it.remaining());
            },
            None => {
                assert(s@ =~= v@);
                break;
            },
        }
    }
    v
}

/// Encoding a concatenation encodes each part in turn.
proof fn lemma_encode_concat(a: Seq<char>, b: Seq<char>)
    ensures
        encode_utf8(a + b) == encode_utf8(a) + encode_utf8(b),
    decreases a.len(),
{
    if a.len() == 0 {
        assert(a + b =~= b);
        assert(encode_utf8(a) + encode_utf8(b) =~= encode_utf8(b));
    } else {
        assert((a + b).drop_first() =~= a.drop_first() + b);
        lemma_encode_concat(a.drop_first(), b);
        assert(encode_utf8(a + b) =~= encode_utf8(a) + encode_utf8(b));
    }
}

/// The end of an encoded prefix is a character boundary of the whole.
proof fn lemma_prefix_boundary(a: Seq<char>, b: Seq<char>)
    ensures
        is_char_boundary(encode_utf8(a + b), encode_utf8(a).len() as int),
    decreases a.len(),
{
    let bytes = encode_utf8(a + b);
    lemma_encode_concat(a, b);
    encode_utf8_valid_utf8(a + b);
    if a.len() > 0 {
        encode_utf8_first_scalar(a + b);
        assert((a + b)[0] == a[0]);
        assert((a + b).drop_first() =~= a.drop_first() + b);
        lemma_prefix_boundary(a.drop_first(), b);
        lemma_encode_concat(a.drop_first(), b);
        assert(pop_first_scalar(bytes) =~= encode_utf8(a.drop_first() + b));
    }
}

/// Number of bytes that `c` takes in UTF-8.
fn utf8_width(c: char) -> (w: usize)
    ensures
        w == encode_scalar(c as u32).len(),
{
    proof {
        char_is_scalar(c);
    }
    let u = c as u32;
    if u <= 0x7F {
        1
    } else if u <= 0x7FF {
        2
    } else if u <= 0xFFFF {
        3
    } else {
        4
    }
}

/// Cuts `s` after its first `k` characters. `s` is the part of `cs` that
/// starts at `start`.
pub fn split_chars<'a>(s: &'a str, cs: &Vec<char>, start: usize, k: usize) -> (r: (
    &'a str,
    &'a str,
))
    requires
        start <= cs@.len(),
        s@ == cs@.subrange(start as int, cs@.len() as int),
        k <= s@.len(),
    ensures
        r.0@ == s@.subrange(0, k as int),
        r.1@ == s@.subrange(k as int, s@.len() as int),
{
    let n = s.as_bytes().len();
    let total = cs.len();
    let mut b: usize = 0;
    let mut i: usize = 0;
    while i < k
        invariant
            i <= k <= s@.len(),
            start <= cs@.len(),
            total == cs@.len(),
            s@ == cs@.subrange(start as int, cs@.len() as int),
            n == s.spec_bytes().len(),
            b == encode_utf8(s@.subrange(0, i as int)).len(),
        decreases k - i,
    {
        let ghost pre = s@.subrange(0, i as int);
        let ghost next = s@.subrange(0, i + 1);
        assert(s@.len() == cs@.len() - start);
        let c = cs[start + i];
        proof {
            assert(c == s@[i as int]);
            assert(next =~= pre + seq![c]);
            lemma_encode_concat(pre, seq![c]);
            assert(encode_utf8(seq![c]) =~= encode_scalar(c as u32)) by {
                reveal_with_fuel(encode_utf8, 2);
                assert(seq![c].drop_first() =~= Seq::<char>::empty());
            }
            assert(s@ =~= next + s@.subrange(i + 1, s@.len() as int));
            lemma_encode_concat(next, s@.subrange(i + 1, s@.len() as int));
        }
        b = b + utf8_width(c);
        i = i + 1;
    }
    let ghost pre = s@.subrange(0, k as int);
    let ghost post = s@.subrange(k as int, s@.len() as int);
    proof {
        assert(s@ =~= pre + post);
        lemma_prefix_boundary(pre, post);
        lemma_encode_concat(pre, post);
    }
    let r = s.split_at(b);
    proof {
        assert(encode_utf8(r.0@) =~= encode_utf8(pre));
        assert(encode_utf8(r.1@) =~= encode_utf8(post));
        encode_utf8_decode_utf8(r.0@);
        encode_utf8_decode_utf8(pre);
        encode_utf8_decode_utf8(r.1@);
        encode_utf8_decode_utf8(post);
    }
    r
}

/// Cuts `s`, whose characters `cs` holds, after its first `k` characters.
pub fn split_at_char<'a>(s: &'a str, cs: &Vec<char>, k: usize) -> (r: (&'a str, &'a str))
    requires
        cs@ == s@,
        k <= cs@.len(),
    ensures
        r.0@ == s@.subrange(0, k as int),
        r.1@ == s@.subrange(k as int, s@.len() as int),
{
    proof {
        assert(s@ =~= cs@.subrange(0, cs@.len() as int));
    }
    split_chars(s, cs, 0, k)
}

/// The characters of `s` from position `i` up to `j`, as a new string.
pub fn substring(s: &str, cs: &Vec<char>, i: usize, j: usize) -> (r: String)
    requires
        cs@ == s@,
        i <= j <= cs@.len(),
    ensures
        r@ == s@.subrange(i as int, j as int),
{
    let (_, tail) = split_at_char(s, cs, i);
    let (mid, _) = split_chars(tail, cs, i, j - i);
    proof {
        assert(mid@ =~= s@.subrange(i as int, j as int));
    }
    mid.to_owned()
}

} // verus!
