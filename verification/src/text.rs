//! Small verified string utilities: character-level equality and
//! substring search, decimal rendering of incident numbers, and the
//! two Unicode-aware normalizations (trimming and lowercasing) that
//! email matching needs, taken from the standard library on trust.

use vstd::prelude::*;
use vstd::string::StrSliceExecFns;
use vstd::string::StringExecFns;

verus! {

/// What `str::trim` returns: the characters with leading and trailing
/// whitespace removed.
pub uninterp spec fn trimmed_of(s: Seq<char>) -> Seq<char>;

/// What `str::to_lowercase` returns: the Unicode lowercase form of the
/// characters.
pub uninterp spec fn lower_of(s: Seq<char>) -> Seq<char>;

/// Relies on `str::trim`: removes leading and trailing whitespace; the
/// result depends on the characters alone.
#[verifier::external_body]
pub(crate) fn trim_str(s: &str) -> (r: &str)
    ensures
        r@ == trimmed_of(s@),
{
    s.trim()
}

/// Relies on `str::to_lowercase`: the result depends on the characters
/// alone.
#[verifier::external_body]
pub(crate) fn lowercase_str(s: &str) -> (r: String)
    ensures
        r@ == lower_of(s@),
{
    s.to_lowercase()
}

/// Character-for-character equality of two string slices.
pub fn str_eq(a: &str, b: &str) -> (r: bool)
    ensures
        r == (a@ == b@),
{
    let n = a.unicode_len();
    if n != b.unicode_len() {
        return false;
    }
    let mut i: usize = 0;
    while i < n
        invariant
            n == a@.len(),
            n == b@.len(),
            i <= n,
            forall|j: int| 0 <= j < i ==> a@[j] == b@[j],
        decreases n - i,
    {
        if a.get_char(i) != b.get_char(i) {
            return false;
        }
        i += 1;
    }
    proof {
        assert(a@ =~= b@);
    }
    true
}

/// The characters of a string slice, as a vector.
pub fn str_chars(s: &str) -> (v: Vec<char>)
    ensures
        v@ == s@,
{
    let n = s.unicode_len();
    let mut v: Vec<char> = Vec::new();
    let mut i: usize = 0;
    while i < n
        invariant
            n == s@.len(),
            i <= n,
            v@ == s@.subrange(0, i as int),
        decreases n - i,
    {
        v.push(s.get_char(i));
        proof {
            assert(v@ =~= s@.subrange(0, i + 1));
        }
        i += 1;
    }
    proof {
        assert(v@ =~= s@);
    }
    v
}

/// The views of a sequence of strings.
pub open spec fn strings_of(s: Seq<String>) -> Seq<Seq<char>> {
    s.map_values(|x: String| x@)
}

/// Whether `needle` occurs as a contiguous run of characters in
/// `haystack`.
pub open spec fn contains_seq(haystack: Seq<char>, needle: Seq<char>) -> bool {
    exists|k: int|
        0 <= k && k + needle.len() <= haystack.len() && #[trigger] haystack.subrange(
            k,
            k + needle.len(),
        ) == needle
}

fn match_at(haystack: &Vec<char>, needle: &Vec<char>, at: usize) -> (r: bool)
    requires
        at + needle@.len() <= haystack@.len(),
    ensures
        r == (haystack@.subrange(at as int, at + needle@.len()) == needle@),
{
    let h = haystack.len();
    let n = needle.len();
    let mut j: usize = 0;
    while j < n
        invariant
            h == haystack@.len(),
            n == needle@.len(),
            at + n <= h,
            j <= n,
            forall|m: int| 0 <= m < j ==> haystack@[at + m] == needle@[m],
        decreases n - j,
    {
        if haystack[at + j] != needle[j] {
            proof {
                let sub = haystack@.subrange(at as int, at + needle@.len());
                assert(sub[j as int] != needle@[j as int]);
            }
            return false;
        }
        j += 1;
    }
    proof {
        assert(haystack@.subrange(at as int, at + needle@.len()) =~= needle@);
    }
    true
}

/// Verified substring search.
pub fn chars_contain(haystack: &Vec<char>, needle: &Vec<char>) -> (r: bool)
    ensures
        r == contains_seq(haystack@, needle@),
{
    let h = haystack.len();
    let n = needle.len();
    if n > h {
        return false;
    }
    let mut k: usize = 0;
    loop
        invariant
            h == haystack@.len(),
            n == needle@.len(),
            n <= h,
            k <= h - n,
            forall|m: int|
                0 <= m < k ==> #[trigger] haystack@.subrange(m, m + needle@.len()) != needle@,
        decreases h - n - k,
    {
        if match_at(haystack, needle, k) {
            return true;
        }
        if k == h - n {
            proof {
                assert(forall|m: int|
                    0 <= m && m + needle@.len() <= haystack@.len() ==> #[trigger] haystack@.subrange(
                        m,
                        m + needle@.len(),
                    ) != needle@);
            }
            return false;
        }
        k += 1;
    }
}

/// The character standing for a single decimal digit.
pub open spec fn digit_char(d: int) -> char {
    if d == 0 {
        '0'
    } else if d == 1 {
        '1'
    } else if d == 2 {
        '2'
    } else if d == 3 {
        '3'
    } else if d == 4 {
        '4'
    } else if d == 5 {
        '5'
    } else if d == 6 {
        '6'
    } else if d == 7 {
        '7'
    } else if d == 8 {
        '8'
    } else {
        '9'
    }
}

/// The decimal rendering of a natural number, most significant digit
/// first, with no leading zeros (a lone zero for 0).
pub open spec fn dec_str(n: nat) -> Seq<char>
    decreases n,
{
    if n < 10 {
        seq![digit_char(n as int)]
    } else {
        dec_str(n / 10).push(digit_char((n % 10) as int))
    }
}

fn append_digit(s: &mut String, d: u64)
    requires
        d < 10,
    ensures
        final(s)@ == old(s)@ + seq![digit_char(d as int)],
{
    proof {
        reveal_strlit("0");
        reveal_strlit("1");
        reveal_strlit("2");
        reveal_strlit("3");
        reveal_strlit("4");
        reveal_strlit("5");
        reveal_strlit("6");
        reveal_strlit("7");
        reveal_strlit("8");
        reveal_strlit("9");
    }
    if d == 0 {
        s.append("0");
    } else if d == 1 {
        s.append("1");
    } else if d == 2 {
        s.append("2");
    } else if d == 3 {
        s.append("3");
    } else if d == 4 {
        s.append("4");
    } else if d == 5 {
        s.append("5");
    } else if d == 6 {
        s.append("6");
    } else if d == 7 {
        s.append("7");
    } else if d == 8 {
        s.append("8");
    } else {
        s.append("9");
    }
    proof {
        assert(final(s)@ =~= old(s)@ + seq![digit_char(d as int)]);
    }
}

/// Appends the decimal rendering of `n` to `s`.
pub fn push_dec(s: &mut String, n: u64)
    ensures
        final(s)@ == old(s)@ + dec_str(n as nat),
    decreases n,
{
    if n >= 10 {
        push_dec(s, n / 10);
    }
    append_digit(s, n % 10);
    proof {
        assert(final(s)@ =~= old(s)@ + dec_str(n as nat));
    }
}

/// The decimal rendering of `n` as a string.
pub fn u64_to_dec(n: u64) -> (s: String)
    ensures
        s@ == dec_str(n as nat),
{
    let mut s = String::new();
    push_dec(&mut s, n);
    proof {
        assert(s@ =~= dec_str(n as nat));
    }
    s
}

} // verus!
