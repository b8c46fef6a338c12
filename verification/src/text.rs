//! Verified text utilities: character-level equality and suffix tests,
//! joining names with a dot, decimal and hexadecimal rendering of integers,
//! splitting on a separator, and the case-folding wrapper that the matcher
//! relies on.

use vstd::prelude::*;
use vstd::string::*;

verus! {

/// The sequence of characters that `str::to_lowercase` produces for `s`.
/// The result depends on the characters of `s` alone.
pub uninterp spec fn lower_of(s: Seq<char>) -> Seq<char>;

/// Relies on `str::to_lowercase`: Unicode lowercase of the input, a pure
/// function of the input's characters.
#[verifier::external_body]
pub(crate) fn lowercase(s: &str) -> (r: String)
    ensures
        r@ == lower_of(s@),
{
    s.to_lowercase()
}

/// Character-by-character string equality.
pub fn str_eq(a: &str, b: &str) -> (r: bool)
    ensures
        r == (a@ == b@),
{
    let alen = a.unicode_len();
    let blen = b.unicode_len();
    if alen != blen {
        return false;
    }
    let mut i: usize = 0;
    while i < alen
        invariant
            i <= alen,
            alen == a@.len(),
            alen == b@.len(),
            forall|j: int| 0 <= j < i ==> a@[j] == b@[j],
        decreases alen - i,
    {
        if a.get_char(i) != b.get_char(i) {
            return false;
        }
        i += 1;
    }
    proof {
        assert(a@ =~= b@);
    }
    true
}

/// Does `s` end with `suffix`?
pub fn str_ends_with(s: &str, suffix: &str) -> (r: bool)
    ensures
        r == suffix@.is_suffix_of(s@),
{
    let slen = s.unicode_len();
    let flen = suffix.unicode_len();
    if flen > slen {
        return false;
    }
    let off = slen - flen;
    let mut i: usize = 0;
    while i < flen
        invariant
            i <= flen,
            flen <= slen,
            off == slen - flen,
            slen == s@.len(),
            flen == suffix@.len(),
            forall|j: int| 0 <= j < i ==> s@[off + j] == suffix@[j],
        decreases flen - i,
    {
        if s.get_char(off + i) != suffix.get_char(i) {
            proof {
                assert(s@.subrange(off as int, slen as int)[i as int] == s@[off + i]);
            }
            return false;
        }
        i += 1;
    }
    proof {
        assert(suffix@ =~= s@.subrange(off as int, slen as int));
    }
    true
}

/// `a`, a dot, then `b` — how a record's relative name and its domain form a
/// fully qualified name.
pub fn join_dot(a: &str, b: &str) -> (r: String)
    ensures
        r@ == a@ + seq!['.'] + b@,
{
    let mut r = String::from_str(a);
    r.append(".");
    r.append(b);
    proof {
        reveal_strlit(".");
        assert(r@ =~= a@ + seq!['.'] + b@);
    }
    r
}

/// The decimal digit `d` as a character.
pub open spec fn spec_digit_char(d: int) -> char {
    if d == 0 {
        '0'
    } else if d == 1 {
        '1'
    } else if d == 2 {
        '2'
    } else if d == 3 {
        '3'
    } else if d == 4 {
        '4'
    } else if d == 5 {
        '5'
    } else if d == 6 {
        '6'
    } else if d == 7 {
        '7'
    } else if d == 8 {
        '8'
    } else {
        '9'
    }
}

/// The usual decimal rendering of a non-negative integer, no leading zeros.
pub open spec fn spec_decimal(n: int) -> Seq<char>
    decreases n,
{
    if n < 10 {
        seq![spec_digit_char(n)]
    } else {
        spec_decimal(n / 10) + seq![spec_digit_char(n % 10)]
    }
}

fn digit_str(d: u8) -> (r: &'static str)
    requires
        d < 10,
    ensures
        r@ == seq![spec_digit_char(d as int)],
{
    proof {
        reveal_strlit("0");
        reveal_strlit("1");
        reveal_strlit("2");
        reveal_strlit("3");
        reveal_strlit("4");
        reveal_strlit("5");
        reveal_strlit("6");
        reveal_strlit("7");
        reveal_strlit("8");
        reveal_strlit("9");
        assert("0"@ =~= seq![spec_digit_char(0)]);
        assert("1"@ =~= seq![spec_digit_char(1)]);
        assert("2"@ =~= seq![spec_digit_char(2)]);
        assert("3"@ =~= seq![spec_digit_char(3)]);
        assert("4"@ =~= seq![spec_digit_char(4)]);
        assert("5"@ =~= seq![spec_digit_char(5)]);
        assert("6"@ =~= seq![spec_digit_char(6)]);
        assert("7"@ =~= seq![spec_digit_char(7)]);
        assert("8"@ =~= seq![spec_digit_char(8)]);
        assert("9"@ =~= seq![spec_digit_char(9)]);
    }
    match d {
        0 => "0",
        1 => "1",
        2 => "2",
        3 => "3",
        4 => "4",
        5 => "5",
        6 => "6",
        7 => "7",
        8 => "8",
        _ => "9",
    }
}

/// Decimal rendering of a `u32`.
pub fn u32_decimal(n: u32) -> (r: String)
    ensures
        r@ == spec_decimal(n as int),
    decreases n,
{
    if n < 10 {
        String::from_str(digit_str(n as u8))
    } else {
        let mut r = u32_decimal(n / 10);
        r.append(digit_str((n % 10) as u8));
        r
    }
}

/// Decimal rendering of an `i32`, a leading minus sign when negative.
pub open spec fn spec_i32_decimal(n: int) -> Seq<char> {
    if n < 0 {
        seq!['-'] + spec_decimal(-n)
    } else {
        spec_decimal(n)
    }
}

/// Decimal rendering of an `i32`.
pub fn i32_decimal(n: i32) -> (r: String)
    ensures
        r@ == spec_i32_decimal(n as int),
{
    if n >= 0 {
        u32_decimal(n as u32)
    } else {
        let magnitude: u32 = (-(n as i64)) as u32;
        let mut r = String::from_str("-");
        let digits = u32_decimal(magnitude);
        r.append(digits.as_str());
        proof {
            reveal_strlit("-");
            assert(r@ =~= seq!['-'] + spec_decimal(magnitude as int));
        }
        r
    }
}

/// The hexadecimal digit `d` as a lowercase character.
pub open spec fn spec_hex_char(d: int) -> char {
    if d < 10 {
        spec_digit_char(d)
    } else if d == 10 {
        'a'
    } else if d == 11 {
        'b'
    } else if d == 12 {
        'c'
    } else if d == 13 {
        'd'
    } else if d == 14 {
        'e'
    } else {
        'f'
    }
}

/// Lowercase hexadecimal rendering of a non-negative integer, no leading
/// zeros.
pub open spec fn spec_hex(n: int) -> Seq<char>
    decreases n,
{
    if n < 16 {
        seq![spec_hex_char(n)]
    } else {
        spec_hex(n / 16) + seq![spec_hex_char(n % 16)]
    }
}

fn hex_digit_str(d: u8) -> (r: &'static str)
    requires
        d < 16,
    ensures
        r@ == seq![spec_hex_char(d as int)],
{
    if d < 10 {
        digit_str(d)
    } else {
        proof {
            reveal_strlit("a");
            reveal_strlit("b");
            reveal_strlit("c");
            reveal_strlit("d");
            reveal_strlit("e");
            reveal_strlit("f");
            assert("a"@ =~= seq![spec_hex_char(10)]);
            assert("b"@ =~= seq![spec_hex_char(11)]);
            assert("c"@ =~= seq![spec_hex_char(12)]);
            assert("d"@ =~= seq![spec_hex_char(13)]);
            assert("e"@ =~= seq![spec_hex_char(14)]);
            assert("f"@ =~= seq![spec_hex_char(15)]);
        }
        match d {
            10 => "a",
            11 => "b",
            12 => "c",
            13 => "d",
            14 => "e",
            _ => "f",
        }
    }
}

/// Lowercase hexadecimal rendering of a `u16`.
pub fn u16_hex(n: u16) -> (r: String)
    ensures
        r@ == spec_hex(n as int),
    decreases n,
{
    if n < 16 {
        String::from_str(hex_digit_str(n as u8))
    } else {
        let mut r = u16_hex(n / 16);
        r.append(hex_digit_str((n % 16) as u8));
        r
    }
}

/// `s` split at every occurrence of `sep`; the separators themselves do not
/// appear, and `n` separators give `n + 1` pieces.
pub open spec fn spec_split(s: Seq<char>, sep: char) -> Seq<Seq<char>>
    decreases s.len(),
{
    if s.len() == 0 {
        seq![s]
    } else if s[0] == sep {
        seq![Seq::<char>::empty()] + spec_split(s.drop_first(), sep)
    } else {
        let rest = spec_split(s.drop_first(), sep);
        seq![seq![s[0]] + rest[0]] + rest.drop_first()
    }
}

proof fn lemma_split_nonempty(s: Seq<char>, sep: char)
    ensures
        spec_split(s, sep).len() >= 1,
    decreases s.len(),
{
    if s.len() != 0 && s[0] != sep {
        lemma_split_nonempty(s.drop_first(), sep);
    }
}

/// Splitting is determined by the first separator: everything before it is
/// the first piece, and the rest splits on its own.
proof fn lemma_split_at_first(s: Seq<char>, sep: char, k: int)
    requires
        0 <= k <= s.len(),
        forall|j: int| 0 <= j < k ==> s[j] != sep,
        k < s.len() ==> s[k] == sep,
    ensures
        k == s.len() ==> spec_split(s, sep) == seq![s],
        k < s.len() ==> spec_split(s, sep) == seq![s.subrange(0, k)] + spec_split(
            s.subrange(k + 1, s.len() as int),
            sep,
        ),
    decreases k, s.len(),
{
    lemma_split_nonempty(s, sep);
    if s.len() == 0 {
    } else if k == 0 {
        if s[0] == sep {
            assert(s.subrange(0, 0) =~= Seq::<char>::empty());
            assert(s.subrange(1, s.len() as int) =~= s.drop_first());
        }
    } else {
        let sdf = s.drop_first();
        lemma_split_nonempty(sdf, sep);
        lemma_split_at_first(sdf, sep, k - 1);
        let rest = spec_split(sdf, sep);
        if k == s.len() {
            assert(rest == seq![sdf]);
            assert(seq![s[0]] + sdf =~= s);
            assert(spec_split(s, sep) =~= seq![s]);
        } else {
            assert(rest == seq![sdf.subrange(0, k - 1)] + spec_split(
                sdf.subrange(k, sdf.len() as int),
                sep,
            ));
            assert(rest[0] == sdf.subrange(0, k - 1));
            assert(seq![s[0]] + sdf.subrange(0, k - 1) =~= s.subrange(0, k));
            assert(rest.drop_first() =~= spec_split(sdf.subrange(k, sdf.len() as int), sep));
            assert(sdf.subrange(k, sdf.len() as int) =~= s.subrange(k + 1, s.len() as int));
            assert(spec_split(s, sep) =~= seq![s.subrange(0, k)] + spec_split(
                s.subrange(k + 1, s.len() as int),
                sep,
            ));
        }
    }
}

/// The position of the first occurrence of `c` in `s`, if any.
pub fn find_char(s: &str, c: char) -> (r: Option<usize>)
    ensures
        match r {
            Some(k) => k < s@.len() && s@[k as int] == c && forall|j: int|
                0 <= j < k ==> s@[j] != c,
            None => forall|j: int| 0 <= j < s@.len() ==> s@[j] != c,
        },
{
    let len = s.unicode_len();
    let mut i: usize = 0;
    while i < len
        invariant
            i <= len,
            len == s@.len(),
            forall|j: int| 0 <= j < i ==> s@[j] != c,
        decreases len - i,
    {
        if s.get_char(i) == c {
            return Some(i);
        }
        i += 1;
    }
    None
}

/// `s` split at every occurrence of `sep`, as owned strings.
pub fn split_char(s: &str, sep: char) -> (r: Vec<String>)
    ensures
        r@.map_values(|t: String| t@) == spec_split(s@, sep),
    decreases s@.len(),
{
    let len = s.unicode_len();
    match find_char(s, sep) {
        None => {
            proof {
                lemma_split_at_first(s@, sep, len as int);
            }
            let mut v: Vec<String> = Vec::new();
            v.push(String::from_str(s));
            proof {
                assert(v@.map_values(|t: String| t@) =~= seq![s@]);
            }
            v
        },
        Some(k) => {
            let head = s.substring_char(0, k);
            let tail = s.substring_char(k + 1, len);
            let mut rest = split_char(tail, sep);
            rest.insert(0, String::from_str(head));
            proof {
                lemma_split_at_first(s@, sep, k as int);
                assert(rest@.map_values(|t: String| t@) =~= seq![s@.subrange(0, k as int)]
                    + spec_split(s@.subrange(k + 1, s@.len() as int), sep));
            }
            rest
        },
    }
}

} // verus!
