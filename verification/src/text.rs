//! Helpers on string slices, stated over their character sequences.
use vstd::prelude::*;
use vstd::string::StringSliceAdditionalSpecFns;
use vstd::utf8::encode_utf8_decode_utf8;

verus! {

/// `p` is an initial segment of `s`.
pub open spec fn is_prefix(p: Seq<char>, s: Seq<char>) -> bool {
    p.len() <= s.len() && s.subrange(0, p.len() as int) == p
}

/// Two texts hold the same characters exactly when their encodings agree.
pub proof fn lemma_same_bytes_same_text(a: &str, b: &str)
    requires
        a.spec_bytes() == b.spec_bytes(),
    ensures
        a@ == b@,
{
    encode_utf8_decode_utf8(a@);
    encode_utf8_decode_utf8(b@);
}

/// Compares two texts character for character.
pub fn same_text(a: &str, b: &str) -> (r: bool)
    ensures
        r == (a@ == b@),
{
    let x = a.as_bytes();
    let y = b.as_bytes();
    if x.len() != y.len() {
        return false;
    }
    let mut i: usize = 0;
    while i < x.len()
        invariant
            i <= x.len(),
            x.len() == y.len(),
            x@ == a.spec_bytes(),
            y@ == b.spec_bytes(),
            forall|j: int| 0 <= j < i ==> x@[j] == y@[j],
        decreases x.len() - i,
    {
        if x[i] != y[i] {
            return false;
        }
        i += 1;
    }
    proof {
        assert(x@ =~= y@);
        lemma_same_bytes_same_text(a, b);
    }
    true
}

/// The number of characters of `s`.
pub fn char_len(s: &str) -> (n: usize)
    ensures
        n == s@.len(),
{
    s.unicode_len()
}

/// The first `n` characters of `s`.
pub fn head<'a>(s: &'a str, n: usize) -> (r: &'a str)
    requires
        n <= s@.len(),
    ensures
        r@ == s@.subrange(0, n as int),
{
    s.substring_char(0, n)
}

/// What is left of `s`, which has `len` characters, after its first `n`.
pub fn tail<'a>(s: &'a str, n: usize, len: usize) -> (r: &'a str)
    requires
        n <= len == s@.len(),
    ensures
        r@ == s@.skip(n as int),
{
    s.substring_char(n, len)
}

/// Whether `input` begins with `pattern`.
pub fn starts_with(input: &str, pattern: &str) -> (b: bool)
    ensures
        b == is_prefix(pattern@, input@),
{
    let n = pattern.unicode_len();
    if n > input.unicode_len() {
        return false;
    }
    let mut i: usize = 0;
    while i < n
        invariant
            i <= n,
            n == pattern@.len(),
            n <= input@.len(),
            forall|j: int| 0 <= j < i ==> input@[j] == pattern@[j],
        decreases n - i,
    {
        if input.get_char(i) != pattern.get_char(i) {
            assert(input@.subrange(0, n as int)[i as int] != pattern@[i as int]);
            return false;
        }
        i += 1;
    }
    assert(input@.subrange(0, n as int) =~= pattern@);
    true
}

} // verus!
