//! Character-level helpers: whitespace trimming, substring search.

use vstd::prelude::*;

verus! {

/// Whether `c` has the Unicode `White_Space` property (the characters that
/// `char::is_whitespace` and `str::trim` treat as whitespace): tab, line
/// feed, vertical tab, form feed, carriage return, space, next line,
/// no-break space, ogham space mark, the spaces U+2000 to U+200A, line
/// separator, paragraph separator, narrow no-break space, medium
/// mathematical space and ideographic space.
pub open spec fn char_is_whitespace(c: char) -> bool {
    let u = c as u32;
    ||| 0x09 <= u <= 0x0d
    ||| u == 0x20
    ||| u == 0x85
    ||| u == 0xa0
    ||| u == 0x1680
    ||| 0x2000 <= u <= 0x200a
    ||| u == 0x2028
    ||| u == 0x2029
    ||| u == 0x202f
    ||| u == 0x205f
    ||| u == 0x3000
}

/// Whether `c` is a Unicode whitespace character.
pub fn is_whitespace(c: char) -> (b: bool)
    ensures
        b == char_is_whitespace(c),
{
    let u = c as u32;
    (0x09 <= u && u <= 0x0d) || u == 0x20 || u == 0x85 || u == 0xa0 || u == 0x1680 || (0x2000
        <= u && u <= 0x200a) || u == 0x2028 || u == 0x2029 || u == 0x202f || u == 0x205f || u
        == 0x3000
}

/// `s` with leading and trailing whitespace removed (what `str::trim` returns).
pub open spec fn trimmed(s: Seq<char>) -> Seq<char>
    decreases s.len(),
{
    if s.len() == 0 {
        s
    } else if char_is_whitespace(s[0]) {
        trimmed(s.drop_first())
    } else if char_is_whitespace(s.last()) {
        trimmed(s.drop_last())
    } else {
        s
    }
}

/// Every character of `s` is whitespace.
pub open spec fn all_whitespace(s: Seq<char>) -> bool {
    forall|i: int| 0 <= i < s.len() ==> char_is_whitespace(#[trigger] s[i])
}

/// A string is blank when trimming leaves nothing of it.
pub open spec fn is_blank(s: Seq<char>) -> bool {
    trimmed(s).len() == 0
}

/// Trimming leaves nothing exactly when every character is whitespace.
pub proof fn lemma_trim_empty_iff_all_whitespace(s: Seq<char>)
    ensures
        is_blank(s) <==> all_whitespace(s),
    decreases s.len(),
{
    if s.len() == 0 {
    } else if char_is_whitespace(s[0]) {
        lemma_trim_empty_iff_all_whitespace(s.drop_first());
        if all_whitespace(s.drop_first()) {
            assert forall|i: int| 0 <= i < s.len() implies char_is_whitespace(#[trigger] s[i]) by {
                if i > 0 {
                    assert(s[i] == s.drop_first()[i - 1]);
                }
            }
        }
        if all_whitespace(s) {
            assert forall|i: int| 0 <= i < s.drop_first().len() implies char_is_whitespace(
                #[trigger] s.drop_first()[i],
            ) by {
                assert(s.drop_first()[i] == s[i + 1]);
            }
        }
    } else if char_is_whitespace(s.last()) {
        lemma_trim_empty_iff_all_whitespace(s.drop_last());
        assert(!all_whitespace(s.drop_last())) by {
            assert(s.drop_last()[0] == s[0]);
        }
        assert(!all_whitespace(s));
    } else {
        assert(!all_whitespace(s));
    }
}

proof fn lemma_trim_drop_first(s: Seq<char>, i: int)
    requires
        0 <= i < s.len(),
        char_is_whitespace(s[i]),
    ensures
        trimmed(s.subrange(i, s.len() as int)) == trimmed(s.subrange(i + 1, s.len() as int)),
{
    let sub = s.subrange(i, s.len() as int);
    assert(sub.drop_first() =~= s.subrange(i + 1, s.len() as int));
}

proof fn lemma_trim_drop_last(s: Seq<char>, i: int, j: int)
    requires
        0 <= i < j - 1,
        j <= s.len(),
        !char_is_whitespace(s[i]),
        char_is_whitespace(s[j - 1]),
    ensures
        trimmed(s.subrange(i, j)) == trimmed(s.subrange(i, j - 1)),
{
    let sub = s.subrange(i, j);
    assert(sub[0] == s[i]);
    assert(sub.drop_last() =~= s.subrange(i, j - 1));
}

/// Returns `s` without its leading and trailing whitespace.
pub fn trim(s: &str) -> (r: String)
    ensures
        r@ == trimmed(s@),
{
    let len = s.unicode_len();
    let mut i: usize = 0;
    assert(s@.subrange(0, len as int) =~= s@);
    while i < len && is_whitespace(s.get_char(i))
        invariant
            len == s@.len(),
            i <= len,
            trimmed(s@) == trimmed(s@.subrange(i as int, len as int)),
        decreases len - i,
    {
        proof {
            lemma_trim_drop_first(s@, i as int);
        }
        i = i + 1;
    }
    let mut j: usize = len;
    while j - i > 1 && is_whitespace(s.get_char(j - 1))
        invariant
            len == s@.len(),
            i <= j <= len,
            i < len ==> !char_is_whitespace(s@[i as int]),
            trimmed(s@) == trimmed(s@.subrange(i as int, j as int)),
        decreases j - i,
    {
        proof {
            lemma_trim_drop_last(s@, i as int, j as int);
        }
        j = j - 1;
    }
    proof {
        let sub = s@.subrange(i as int, j as int);
        if i < j {
            assert(sub[0] == s@[i as int]);
            assert(sub.last() == s@[j - 1]);
            if j == i + 1 {
                assert(sub.last() == sub[0]);
            }
        }
    }
    String::from_str(s.substring_char(i, j))
}

/// `needle` occurs in `hay` starting at position `i`.
pub open spec fn occurs_at(hay: Seq<char>, needle: Seq<char>, i: int) -> bool {
    0 <= i && i + needle.len() <= hay.len() && hay.subrange(i, i + needle.len()) == needle
}

/// `needle` occurs somewhere in `hay` (what `str::contains` decides).
pub open spec fn contains_seq(hay: Seq<char>, needle: Seq<char>) -> bool {
    exists|i: int| occurs_at(hay, needle, i)
}

/// Whether `needle` occurs in `hay` as a contiguous run of characters.
pub fn contains(hay: &str, needle: &str) -> (b: bool)
    ensures
        b == contains_seq(hay@, needle@),
{
    let n = hay.unicode_len();
    let m = needle.unicode_len();
    if m > n {
        assert forall|i: int| !occurs_at(hay@, needle@, i) by {}
        return false;
    }
    let mut i: usize = 0;
    while i <= n - m
        invariant
            n == hay@.len(),
            m == needle@.len(),
            m <= n,
            i <= n - m + 1,
            forall|k: int| 0 <= k < i ==> !occurs_at(hay@, needle@, k),
        decreases n - m + 1 - i,
    {
        let mut j: usize = 0;
        let mut same = true;
        while j < m
            invariant
                n == hay@.len(),
                m == needle@.len(),
                i + m <= n,
                j <= m,
                same <==> forall|t: int| 0 <= t < j ==> hay@[i + t] == needle@[t],
            decreases m - j,
        {
            if hay.get_char(i + j) != needle.get_char(j) {
                same = false;
            }
            j = j + 1;
        }
        if same {
            assert(hay@.subrange(i as int, i + m) =~= needle@);
            assert(occurs_at(hay@, needle@, i as int));
            return true;
        }
        assert(!occurs_at(hay@, needle@, i as int)) by {
            if hay@.subrange(i as int, i + m) == needle@ {
                assert forall|t: int| 0 <= t < m implies hay@[i + t] == needle@[t] by {
                    assert(hay@.subrange(i as int, i + m)[t] == hay@[i + t]);
                }
            }
        }
        i = i + 1;
    }
    false
}

/// The octal digit for `d` (below 8).
pub open spec fn octal_digit(d: nat) -> Seq<char> {
    if d == 0 {
        "0"@
    } else if d == 1 {
        "1"@
    } else if d == 2 {
        "2"@
    } else if d == 3 {
        "3"@
    } else if d == 4 {
        "4"@
    } else if d == 5 {
        "5"@
    } else if d == 6 {
        "6"@
    } else {
        "7"@
    }
}

/// The octal numeral of `n`, without leading zeros (`0` for zero).
pub open spec fn octal(n: nat) -> Seq<char>
    decreases n,
{
    if n < 8 {
        octal_digit(n)
    } else {
        octal(n / 8) + octal_digit(n % 8)
    }
}

fn octal_digit_str(d: u32) -> (s: &'static str)
    requires
        d < 8,
    ensures
        s@ == octal_digit(d as nat),
{
    if d == 0 {
        "0"
    } else if d == 1 {
        "1"
    } else if d == 2 {
        "2"
    } else if d == 3 {
        "3"
    } else if d == 4 {
        "4"
    } else if d == 5 {
        "5"
    } else if d == 6 {
        "6"
    } else {
        "7"
    }
}

/// Writes `n` in octal, as the `{:o}` format does.
pub fn format_octal(n: u32) -> (s: String)
    ensures
        s@ == octal(n as nat),
    decreases n,
{
    if n < 8 {
        String::from_str(octal_digit_str(n))
    } else {
        format_octal(n / 8).concat(octal_digit_str(n % 8))
    }
}

/// Text placed between two others occurs in the whole.
pub proof fn lemma_contains_middle(a: Seq<char>, b: Seq<char>, c: Seq<char>)
    ensures
        contains_seq(a + b + c, b),
{
    let w = a + b + c;
    assert(w.subrange(a.len() as int, (a.len() + b.len()) as int) =~= b);
    assert(occurs_at(w, b, a.len() as int));
}

/// Appending text keeps every occurrence that was already there.
pub proof fn lemma_contains_extend(a: Seq<char>, n: Seq<char>, b: Seq<char>)
    requires
        contains_seq(a, n),
    ensures
        contains_seq(a + b, n),
{
    let i = choose|i: int| occurs_at(a, n, i);
    assert((a + b).subrange(i, i + n.len()) =~= a.subrange(i, i + n.len()));
    assert(occurs_at(a + b, n, i));
}

} // verus!
