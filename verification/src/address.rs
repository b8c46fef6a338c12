//! The WAN address: its classification (v4 or v6, and the carrier-grade-NAT
//! block), its record type, its textual form, and a verified parser for the
//! bare textual addresses that the lookup services return.

use vstd::prelude::*;
use vstd::string::*;
use crate::text::{
    find_char, spec_decimal, spec_hex, spec_split, split_char, u16_hex, u32_decimal,
};

verus! {

/// A public (WAN) IP address, v4 or v6.
#[derive(Debug, Clone, Copy)]
pub enum WanAddress {
    V4 { a: u8, b: u8, c: u8, d: u8 },
    V6 { s0: u16, s1: u16, s2: u16, s3: u16, s4: u16, s5: u16, s6: u16, s7: u16 },
}

/// Is the address in the shared-address (carrier-grade NAT) block
/// 100.64.0.0/10 — first octet 100, second octet 64 through 127?
pub open spec fn spec_is_cgnat(addr: WanAddress) -> bool {
    match addr {
        WanAddress::V4 { a, b, .. } => a == 100 && 64 <= b <= 127,
        WanAddress::V6 { .. } => false,
    }
}

/// The DNS record type an address of this family belongs in.
pub open spec fn spec_record_type(addr: WanAddress) -> Seq<char> {
    match addr {
        WanAddress::V4 { .. } => "A"@,
        WanAddress::V6 { .. } => "AAAA"@,
    }
}

/// The dotted-quad text of a v4 address.
pub open spec fn spec_ipv4_text(a: int, b: int, c: int, d: int) -> Seq<char> {
    spec_decimal(a) + seq!['.'] + spec_decimal(b) + seq!['.'] + spec_decimal(c) + seq!['.']
        + spec_decimal(d)
}

/// The length of the run of zero groups starting at `i`.
pub open spec fn spec_zero_run_at(s: Seq<int>, i: int) -> int
    decreases s.len() - i,
{
    if i < 0 || i >= s.len() || s[i] != 0 {
        0
    } else {
        1 + spec_zero_run_at(s, i + 1)
    }
}

/// The longest run of zero groups at or after `i` — the leftmost one when
/// runs tie — as its start and length.
pub open spec fn spec_best_zero_run(s: Seq<int>, i: int) -> (int, int)
    decreases s.len() - i,
{
    if i >= s.len() {
        (i, 0)
    } else {
        let cur = spec_zero_run_at(s, i);
        let rest = spec_best_zero_run(s, i + 1);
        if cur >= rest.1 {
            (i, cur)
        } else {
            rest
        }
    }
}

/// The groups `s[from..to]` in lowercase hexadecimal, joined with colons.
pub open spec fn spec_groups_text(s: Seq<int>, from: int, to: int) -> Seq<char>
    decreases to - from,
{
    if from >= to {
        Seq::<char>::empty()
    } else if from + 1 == to {
        spec_hex(s[from])
    } else {
        spec_hex(s[from]) + seq![':'] + spec_groups_text(s, from + 1, to)
    }
}

/// The canonical text of a v6 address: lowercase hexadecimal groups joined
/// with colons, the longest run of two or more zero groups (the leftmost on
/// a tie) written "::". Always hexadecimal groups: no dotted-quad tail.
pub open spec fn spec_ipv6_text(s: Seq<int>) -> Seq<char> {
    let best = spec_best_zero_run(s, 0);
    if best.1 >= 2 {
        spec_groups_text(s, 0, best.0) + seq![':', ':'] + spec_groups_text(
            s,
            best.0 + best.1,
            s.len() as int,
        )
    } else {
        spec_groups_text(s, 0, s.len() as int)
    }
}

/// The canonical text of an address, the form records are compared with and
/// updated to.
pub open spec fn spec_ip_text(addr: WanAddress) -> Seq<char> {
    match addr {
        WanAddress::V4 { a, b, c, d } => spec_ipv4_text(a as int, b as int, c as int, d as int),
        WanAddress::V6 { s0, s1, s2, s3, s4, s5, s6, s7 } => spec_ipv6_text(
            seq![
                s0 as int,
                s1 as int,
                s2 as int,
                s3 as int,
                s4 as int,
                s5 as int,
                s6 as int,
                s7 as int,
            ],
        ),
    }
}

impl WanAddress {
    /// Is the address in the carrier-grade NAT block? Such an address is not
    /// a usable public address: the caller must abort rather than retry.
    pub fn is_cgnat(&self) -> (r: bool)
        ensures
            r == spec_is_cgnat(*self),
    {
        match self {
            WanAddress::V4 { a, b, .. } => *a == 100 && 64 <= *b && *b <= 127,
            WanAddress::V6 { .. } => false,
        }
    }

    /// "A" for a v4 address, "AAAA" for a v6 address.
    pub fn record_type(&self) -> (r: String)
        ensures
            r@ == spec_record_type(*self),
    {
        match self {
            WanAddress::V4 { .. } => String::from_str("A"),
            WanAddress::V6 { .. } => String::from_str("AAAA"),
        }
    }

    /// The canonical text of the address.
    pub fn to_text(&self) -> (r: String)
        ensures
            r@ == spec_ip_text(*self),
    {
        match self {
            WanAddress::V4 { a, b, c, d } => {
                let mut r = u32_decimal(*a as u32);
                r.append(".");
                let tb = u32_decimal(*b as u32);
                r.append(tb.as_str());
                r.append(".");
                let tc = u32_decimal(*c as u32);
                r.append(tc.as_str());
                r.append(".");
                let td = u32_decimal(*d as u32);
                r.append(td.as_str());
                proof {
                    reveal_strlit(".");
                    assert(r@ =~= spec_ip_text(*self));
                }
                r
            },
            WanAddress::V6 { s0, s1, s2, s3, s4, s5, s6, s7 } => {
                let mut segs: Vec<u16> = Vec::new();
                segs.push(*s0);
                segs.push(*s1);
                segs.push(*s2);
                segs.push(*s3);
                segs.push(*s4);
                segs.push(*s5);
                segs.push(*s6);
                segs.push(*s7);
                proof {
                    assert(segs@.map_values(|x: u16| x as int) =~= seq![
                        *s0 as int,
                        *s1 as int,
                        *s2 as int,
                        *s3 as int,
                        *s4 as int,
                        *s5 as int,
                        *s6 as int,
                        *s7 as int,
                    ]);
                }
                let best = best_zero_run(&segs, 0);
                if best.1 >= 2 {
                    let mut r = groups_text(&segs, 0, best.0);
                    r.append("::");
                    let tail = groups_text(&segs, best.0 + best.1, segs.len());
                    r.append(tail.as_str());
                    proof {
                        reveal_strlit("::");
                        assert("::"@ =~= seq![':', ':']);
                        assert(r@ =~= spec_ip_text(*self));
                    }
                    r
                } else {
                    groups_text(&segs, 0, segs.len())
                }
            },
        }
    }
}


/// The views of the segments.
pub open spec fn spec_seg_views(segs: Seq<u16>) -> Seq<int> {
    segs.map_values(|x: u16| x as int)
}

/// The length of the run of zero groups starting at `i`.
fn zero_run_at(segs: &Vec<u16>, i: usize) -> (r: usize)
    requires
        i <= segs@.len(),
    ensures
        r as int == spec_zero_run_at(spec_seg_views(segs@), i as int),
        i + r <= segs@.len(),
    decreases segs@.len() - i,
{
    proof {
        assert(spec_seg_views(segs@).len() == segs@.len());
        if i < segs@.len() {
            assert(spec_seg_views(segs@)[i as int] == segs@[i as int] as int);
        }
    }
    if i >= segs.len() || segs[i] != 0 {
        0
    } else {
        1 + zero_run_at(segs, i + 1)
    }
}

/// The longest run of zero groups at or after `i`, the leftmost on a tie.
fn best_zero_run(segs: &Vec<u16>, i: usize) -> (r: (usize, usize))
    requires
        i <= segs@.len(),
    ensures
        (r.0 as int, r.1 as int) == spec_best_zero_run(spec_seg_views(segs@), i as int),
        i <= r.0,
        r.0 + r.1 <= segs@.len(),
    decreases segs@.len() - i,
{
    proof {
        assert(spec_seg_views(segs@).len() == segs@.len());
    }
    if i >= segs.len() {
        (i, 0)
    } else {
        let cur = zero_run_at(segs, i);
        let rest = best_zero_run(segs, i + 1);
        if cur >= rest.1 {
            (i, cur)
        } else {
            rest
        }
    }
}

/// The groups `segs[from..to]` in lowercase hexadecimal, joined with colons.
fn groups_text(segs: &Vec<u16>, from: usize, to: usize) -> (r: String)
    requires
        to <= segs@.len(),
    ensures
        r@ == spec_groups_text(spec_seg_views(segs@), from as int, to as int),
    decreases to - from,
{
    proof {
        assert(spec_seg_views(segs@).len() == segs@.len());
        if from < segs@.len() {
            assert(spec_seg_views(segs@)[from as int] == segs@[from as int] as int);
        }
    }
    if from >= to {
        String::new()
    } else if from + 1 == to {
        u16_hex(segs[from])
    } else {
        let mut r = u16_hex(segs[from]);
        r.append(":");
        let rest = groups_text(segs, from + 1, to);
        r.append(rest.as_str());
        proof {
            reveal_strlit(":");
            assert(r@ =~= spec_groups_text(spec_seg_views(segs@), from as int, to as int));
        }
        r
    }
}

/// Is `c` a decimal digit?
pub open spec fn spec_is_digit(c: char) -> bool {
    48 <= c as u32 <= 57
}

/// The value of a decimal digit character.
pub open spec fn spec_digit_val(c: char) -> int {
    c as u32 - 48
}

/// The value of a sequence of decimal digits, most significant first.
pub open spec fn spec_dec_val(s: Seq<char>) -> int
    decreases s.len(),
{
    if s.len() == 0 {
        0
    } else {
        spec_dec_val(s.drop_last()) * 10 + spec_digit_val(s.last())
    }
}

/// A well-formed octet of a dotted quad: one to three decimal digits, no
/// leading zero unless the octet is exactly "0", value at most 255.
pub open spec fn spec_valid_octet(s: Seq<char>) -> bool {
    &&& 1 <= s.len() <= 3
    &&& forall|i: int| 0 <= i < s.len() ==> spec_is_digit(s[i])
    &&& (s.len() == 1 || s[0] != '0')
    &&& spec_dec_val(s) <= 255
}

/// What a well-formed dotted quad, already split at the dots, stands for.
pub open spec fn spec_parse_ipv4_parts(parts: Seq<Seq<char>>) -> Option<(int, int, int, int)> {
    if parts.len() == 4 && spec_valid_octet(parts[0]) && spec_valid_octet(parts[1])
        && spec_valid_octet(parts[2]) && spec_valid_octet(parts[3]) {
        Some(
            (spec_dec_val(parts[0]), spec_dec_val(parts[1]), spec_dec_val(parts[2]), spec_dec_val(
                parts[3],
            )),
        )
    } else {
        None
    }
}

/// The v4 address that `s` spells as a dotted quad, if it spells one.
pub open spec fn spec_parse_ipv4(s: Seq<char>) -> Option<(int, int, int, int)> {
    spec_parse_ipv4_parts(spec_split(s, '.'))
}

/// One octet of a dotted quad.
fn parse_octet(p: &str) -> (r: Option<u8>)
    ensures
        match r {
            Some(v) => spec_valid_octet(p@) && v as int == spec_dec_val(p@),
            None => !spec_valid_octet(p@),
        },
{
    let len = p.unicode_len();
    if len == 0 || len > 3 {
        return None;
    }
    if len > 1 && p.get_char(0) == '0' {
        return None;
    }
    let mut val: u32 = 0;
    let mut i: usize = 0;
    while i < len
        invariant
            i <= len,
            len == p@.len(),
            1 <= len <= 3,
            forall|j: int| 0 <= j < i ==> spec_is_digit(p@[j]),
            val == spec_dec_val(p@.subrange(0, i as int)),
            val <= (if i == 0 { 0int } else if i == 1 { 9int } else if i == 2 { 99int } else { 999int }),
        decreases len - i,
    {
        let c = p.get_char(i);
        let u = c as u32;
        if !(48 <= u && u <= 57) {
            return None;
        }
        proof {
            assert(p@.subrange(0, i + 1).drop_last() =~= p@.subrange(0, i as int));
            assert(p@.subrange(0, i + 1).last() == p@[i as int]);
        }
        val = val * 10 + (u - 48);
        i += 1;
    }
    proof {
        assert(p@.subrange(0, len as int) =~= p@);
    }
    if val > 255 {
        return None;
    }
    Some(val as u8)
}

/// The v4 address that `s` spells, if it spells one.
pub fn parse_ipv4_text(s: &str) -> (r: Option<(u8, u8, u8, u8)>)
    ensures
        match r {
            Some(t) => spec_parse_ipv4(s@) == Some(
                (t.0 as int, t.1 as int, t.2 as int, t.3 as int),
            ),
            None => spec_parse_ipv4(s@) is None,
        },
{
    let parts = split_char(s, '.');
    proof {
        assert(parts@.map_values(|t: String| t@) == spec_split(s@, '.'));
    }
    if parts.len() != 4 {
        return None;
    }
    proof {
        assert(parts@.map_values(|t: String| t@)[0] == parts@[0]@);
        assert(parts@.map_values(|t: String| t@)[1] == parts@[1]@);
        assert(parts@.map_values(|t: String| t@)[2] == parts@[2]@);
        assert(parts@.map_values(|t: String| t@)[3] == parts@[3]@);
    }
    let a = match parse_octet(parts[0].as_str()) {
        Some(v) => v,
        None => {
            return None;
        },
    };
    let b = match parse_octet(parts[1].as_str()) {
        Some(v) => v,
        None => {
            return None;
        },
    };
    let c = match parse_octet(parts[2].as_str()) {
        Some(v) => v,
        None => {
            return None;
        },
    };
    let d = match parse_octet(parts[3].as_str()) {
        Some(v) => v,
        None => {
            return None;
        },
    };
    Some((a, b, c, d))
}


/// Is `c` a hexadecimal digit (either case)?
pub open spec fn spec_is_hex_digit(c: char) -> bool {
    spec_is_digit(c) || 97 <= c as u32 <= 102 || 65 <= c as u32 <= 70
}

/// The value of a hexadecimal digit character.
pub open spec fn spec_hex_digit_val(c: char) -> int {
    if spec_is_digit(c) {
        c as u32 - 48
    } else if 97 <= c as u32 <= 102 {
        c as u32 - 87
    } else {
        c as u32 - 55
    }
}

/// The value of a sequence of hexadecimal digits, most significant first.
pub open spec fn spec_hex_val(s: Seq<char>) -> int
    decreases s.len(),
{
    if s.len() == 0 {
        0
    } else {
        spec_hex_val(s.drop_last()) * 16 + spec_hex_digit_val(s.last())
    }
}

/// A well-formed group of a v6 address: one to four hexadecimal digits.
/// Leading zeros are allowed here.
pub open spec fn spec_valid_group(s: Seq<char>) -> bool {
    1 <= s.len() <= 4 && forall|i: int| 0 <= i < s.len() ==> spec_is_hex_digit(s[i])
}

/// Does the piece contain a dot (the mark of an embedded dotted quad)?
pub open spec fn spec_piece_has_dot(s: Seq<char>) -> bool {
    exists|i: int| 0 <= i < s.len() && s[i] == '.'
}

/// The group values of a colon-separated run in which every piece must be a
/// plain hexadecimal group.
pub open spec fn spec_plain_groups(ps: Seq<Seq<char>>) -> Option<Seq<int>>
    decreases ps.len(),
{
    if ps.len() == 0 {
        Some(Seq::<int>::empty())
    } else {
        match spec_plain_groups(ps.drop_last()) {
            Some(g) => if spec_valid_group(ps.last()) {
                Some(g.push(spec_hex_val(ps.last())))
            } else {
                None
            },
            None => None,
        }
    }
}

/// The group values of a colon-separated run; when `allow_quad` is set the
/// last piece may instead be a dotted quad standing for the final two groups.
pub open spec fn spec_run_groups(ps: Seq<Seq<char>>, allow_quad: bool) -> Option<Seq<int>> {
    if ps.len() > 0 && allow_quad && spec_piece_has_dot(ps.last()) {
        match spec_plain_groups(ps.drop_last()) {
            Some(g) => match spec_parse_ipv4(ps.last()) {
                Some(q) => Some(g + seq![q.0 * 256 + q.1, q.2 * 256 + q.3]),
                None => None,
            },
            None => None,
        }
    } else {
        spec_plain_groups(ps)
    }
}

/// The position of the first "::" in `s`, if any.
pub open spec fn spec_find_double_colon(s: Seq<char>) -> Option<int>
    decreases s.len(),
{
    if s.len() < 2 {
        None
    } else if s[0] == ':' && s[1] == ':' {
        Some(0)
    } else {
        match spec_find_double_colon(s.drop_first()) {
            Some(i) => Some(i + 1),
            None => None,
        }
    }
}

proof fn lemma_find_double_colon(s: Seq<char>)
    ensures
        match spec_find_double_colon(s) {
            Some(i) => 0 <= i && i + 2 <= s.len() && s[i] == ':' && s[i + 1] == ':'
                && (forall|j: int| 0 <= j < i ==> !(#[trigger] s[j] == ':' && s[j + 1] == ':')),
            None => forall|j: int| 0 <= j && j + 2 <= s.len() ==> !(#[trigger] s[j] == ':' && s[j + 1] == ':'),
        },
    decreases s.len(),
{
    if s.len() >= 2 && !(s[0] == ':' && s[1] == ':') {
        lemma_find_double_colon(s.drop_first());
        let sdf = s.drop_first();
        assert(forall|j: int| 1 <= j && j + 2 <= s.len() ==> #[trigger] s[j] == sdf[j - 1]
            && s[j + 1] == sdf[j]);
    }
}

/// `n` zero groups.
pub open spec fn spec_zero_groups(n: int) -> Seq<int> {
    Seq::new(n as nat, |i: int| 0)
}

/// The eight group values that `s` spells as a v6 address, if it spells one:
/// either eight plain groups, or a single "::" standing for the missing zero
/// groups; the last 32 bits may be written as a dotted quad.
pub open spec fn spec_parse_ipv6(s: Seq<char>) -> Option<Seq<int>> {
    match spec_find_double_colon(s) {
        None => match spec_run_groups(spec_split(s, ':'), true) {
            Some(g) => if g.len() == 8 {
                Some(g)
            } else {
                None
            },
            None => None,
        },
        Some(i) => {
            let left = s.subrange(0, i);
            let right = s.subrange(i + 2, s.len() as int);
            let front = if left.len() == 0 {
                Some(Seq::<int>::empty())
            } else {
                spec_run_groups(spec_split(left, ':'), false)
            };
            let tail = if right.len() == 0 {
                Some(Seq::<int>::empty())
            } else {
                spec_run_groups(spec_split(right, ':'), true)
            };
            match front {
                Some(f) => match tail {
                    Some(t) => if f.len() + t.len() <= 7 {
                        Some(f + spec_zero_groups(8 - f.len() - t.len()) + t)
                    } else {
                        None
                    },
                    None => None,
                },
                None => None,
            }
        },
    }
}

/// What `s` spells as an address: a dotted quad when it is one, else a v6
/// form when it is one.
pub open spec fn spec_parse_ip(s: Seq<char>) -> Option<WanAddress> {
    match spec_parse_ipv4(s) {
        Some(q) => Some(
            WanAddress::V4 { a: q.0 as u8, b: q.1 as u8, c: q.2 as u8, d: q.3 as u8 },
        ),
        None => match spec_parse_ipv6(s) {
            Some(g) => Some(
                WanAddress::V6 {
                    s0: g[0] as u16,
                    s1: g[1] as u16,
                    s2: g[2] as u16,
                    s3: g[3] as u16,
                    s4: g[4] as u16,
                    s5: g[5] as u16,
                    s6: g[6] as u16,
                    s7: g[7] as u16,
                },
            ),
            None => None,
        },
    }
}

/// One plain hexadecimal group.
fn parse_group(p: &str) -> (r: Option<u16>)
    ensures
        match r {
            Some(v) => spec_valid_group(p@) && v as int == spec_hex_val(p@),
            None => !spec_valid_group(p@),
        },
{
    let len = p.unicode_len();
    if len == 0 || len > 4 {
        return None;
    }
    let mut val: u32 = 0;
    let mut i: usize = 0;
    while i < len
        invariant
            i <= len,
            len == p@.len(),
            1 <= len <= 4,
            forall|j: int| 0 <= j < i ==> spec_is_hex_digit(p@[j]),
            val == spec_hex_val(p@.subrange(0, i as int)),
            val <= (if i == 0 { 0int } else if i == 1 { 15int } else if i == 2 { 255int } else if i
                == 3 { 4095int } else { 65535int }),
        decreases len - i,
    {
        let c = p.get_char(i);
        let u = c as u32;
        let d: u32 = if 48 <= u && u <= 57 {
            u - 48
        } else if 97 <= u && u <= 102 {
            u - 87
        } else if 65 <= u && u <= 70 {
            u - 55
        } else {
            return None;
        };
        proof {
            assert(p@.subrange(0, i + 1).drop_last() =~= p@.subrange(0, i as int));
            assert(p@.subrange(0, i + 1).last() == p@[i as int]);
        }
        val = val * 16 + d;
        i += 1;
    }
    proof {
        assert(p@.subrange(0, len as int) =~= p@);
    }
    Some(val as u16)
}

/// The views of a vector of strings.
pub open spec fn views_of(ps: Seq<String>) -> Seq<Seq<char>> {
    ps.map_values(|t: String| t@)
}

proof fn lemma_plain_groups_prefix_fails(ps: Seq<Seq<char>>, k: int)
    requires
        0 <= k <= ps.len(),
        spec_plain_groups(ps.subrange(0, k)) is None,
    ensures
        spec_plain_groups(ps) is None,
    decreases ps.len(),
{
    if ps.len() == k {
        assert(ps.subrange(0, k) =~= ps);
    } else {
        assert(ps.drop_last().subrange(0, k) =~= ps.subrange(0, k));
        lemma_plain_groups_prefix_fails(ps.drop_last(), k);
    }
}

/// The group values of the pieces, allowing a trailing dotted quad when
/// `allow_quad` is set.
fn run_groups(pieces: &Vec<String>, allow_quad: bool) -> (r: Option<Vec<u16>>)
    ensures
        match r {
            Some(v) => spec_run_groups(views_of(pieces@), allow_quad) == Some(
                v@.map_values(|x: u16| x as int),
            ),
            None => spec_run_groups(views_of(pieces@), allow_quad) is None,
        },
{
    let n = pieces.len();
    let quad = allow_quad && n > 0 && {
        match find_char(pieces[n - 1].as_str(), '.') {
            Some(_) => true,
            None => false,
        }
    };
    proof {
        assert(views_of(pieces@).len() == n);
        if n > 0 {
            assert(views_of(pieces@).last() == pieces@[n - 1]@);
        }
        if quad {
            assert(spec_piece_has_dot(views_of(pieces@).last()));
        } else if allow_quad && n > 0 {
            assert(!spec_piece_has_dot(views_of(pieces@).last()));
        }
    }
    let plain_count = if quad { n - 1 } else { n };
    let mut out: Vec<u16> = Vec::new();
    let mut i: usize = 0;
    while i < plain_count
        invariant
            i <= plain_count,
            plain_count <= n,
            n == pieces@.len(),
            quad ==> plain_count == n - 1,
            !quad ==> plain_count == n,
            allow_quad == allow_quad,
            quad == (allow_quad && n > 0 && spec_piece_has_dot(views_of(pieces@).last())),
            spec_plain_groups(views_of(pieces@).subrange(0, i as int)) == Some(
                out@.map_values(|x: u16| x as int),
            ),
        decreases plain_count - i,
    {
        proof {
            assert(views_of(pieces@)[i as int] == pieces@[i as int]@);
        }
        match parse_group(pieces[i].as_str()) {
            Some(v) => {
                out.push(v);
                proof {
                    let vs = views_of(pieces@);
                    assert(vs.subrange(0, i + 1).drop_last() =~= vs.subrange(0, i as int));
                    assert(vs.subrange(0, i + 1).last() == vs[i as int]);
                    assert(out@.map_values(|x: u16| x as int) =~= out@.drop_last().map_values(
                        |x: u16| x as int,
                    ).push(v as int));
                }
            },
            None => {
                proof {
                    let vs = views_of(pieces@);
                    assert(vs.subrange(0, i + 1).drop_last() =~= vs.subrange(0, i as int));
                    assert(vs.subrange(0, i + 1).last() == vs[i as int]);
                    assert(spec_plain_groups(vs.subrange(0, i + 1)) is None);
                    if quad {
                        assert(vs.drop_last() =~= vs.subrange(0, n - 1));
                        lemma_plain_groups_prefix_fails(vs.drop_last(), i + 1);
                    } else {
                        lemma_plain_groups_prefix_fails(vs, i + 1);
                    }
                }
                return None;
            },
        }
        i += 1;
    }
    if quad {
        proof {
            let vs = views_of(pieces@);
            assert(vs.drop_last() =~= vs.subrange(0, n - 1));
        }
        match parse_ipv4_text(pieces[n - 1].as_str()) {
            Some((a, b, c, d)) => {
                let hi: u16 = (a as u16) * 256 + (b as u16);
                let lo: u16 = (c as u16) * 256 + (d as u16);
                out.push(hi);
                out.push(lo);
                proof {
                    let vs = views_of(pieces@);
                    let g = spec_plain_groups(vs.drop_last())->Some_0;
                    assert(out@.map_values(|x: u16| x as int) =~= g + seq![
                        hi as int,
                        lo as int,
                    ]);
                }
                Some(out)
            },
            None => None,
        }
    } else {
        proof {
            let vs = views_of(pieces@);
            assert(vs.subrange(0, n as int) =~= vs);
        }
        Some(out)
    }
}

/// The position of the first "::" in `s`, if any.
fn find_double_colon(s: &str) -> (r: Option<usize>)
    ensures
        match r {
            Some(k) => spec_find_double_colon(s@) == Some(k as int),
            None => spec_find_double_colon(s@) is None,
        },
{
    proof {
        lemma_find_double_colon(s@);
    }
    let len = s.unicode_len();
    if len < 2 {
        return None;
    }
    let mut i: usize = 0;
    while i + 1 < len
        invariant
            len == s@.len(),
            len >= 2,
            i <= len - 1,
            forall|j: int| 0 <= j < i ==> !(#[trigger] s@[j] == ':' && s@[j + 1] == ':'),
        decreases len - i,
    {
        if s.get_char(i) == ':' && s.get_char(i + 1) == ':' {
            proof {
                lemma_find_double_colon(s@);
                if let Some(x) = spec_find_double_colon(s@) {
                    assert(!(x < i) && !(i < x));
                }
            }
            return Some(i);
        }
        i += 1;
    }
    proof {
        lemma_find_double_colon(s@);
        if let Some(x) = spec_find_double_colon(s@) {
            assert(!(s@[x] == ':' && s@[x + 1] == ':'));
        }
    }
    None
}

/// The v6 address that `s` spells, as its eight groups, if it spells one.
fn parse_ipv6_groups(s: &str) -> (r: Option<Vec<u16>>)
    ensures
        match r {
            Some(v) => v@.len() == 8 && spec_parse_ipv6(s@) == Some(
                v@.map_values(|x: u16| x as int),
            ),
            None => spec_parse_ipv6(s@) is None,
        },
{
    let len = s.unicode_len();
    match find_double_colon(s) {
        None => {
            let pieces = split_char(s, ':');
            proof {
                assert(views_of(pieces@) == spec_split(s@, ':'));
            }
            match run_groups(&pieces, true) {
                Some(v) => {
                    if v.len() == 8 {
                        Some(v)
                    } else {
                        None
                    }
                },
                None => None,
            }
        },
        Some(k) => {
            proof {
                lemma_find_double_colon(s@);
            }
            let left = s.substring_char(0, k);
            let right = s.substring_char(k + 2, len);
            let front: Option<Vec<u16>> = if left.unicode_len() == 0 {
                Some(Vec::new())
            } else {
                let lp = split_char(left, ':');
                proof {
                    assert(views_of(lp@) == spec_split(left@, ':'));
                }
                run_groups(&lp, false)
            };
            let f = match front {
                Some(f) => f,
                None => {
                    return None;
                },
            };
            let tail: Option<Vec<u16>> = if right.unicode_len() == 0 {
                Some(Vec::new())
            } else {
                let rp = split_char(right, ':');
                proof {
                    assert(views_of(rp@) == spec_split(right@, ':'));
                }
                run_groups(&rp, true)
            };
            let t = match tail {
                Some(t) => t,
                None => {
                    return None;
                },
            };
            proof {
                if f@.len() == 0 {
                    assert(f@.map_values(|x: u16| x as int) =~= Seq::<int>::empty());
                }
                if t@.len() == 0 {
                    assert(t@.map_values(|x: u16| x as int) =~= Seq::<int>::empty());
                }
            }
            if f.len() > 7 || t.len() > 7 || f.len() + t.len() > 7 {
                return None;
            }
            let missing = 8 - f.len() - t.len();
            let mut out = f;
            let mut z: usize = 0;
            while z < missing
                invariant
                    z <= missing,
                    out@.len() == f@.len() + z,
                    out@.subrange(0, f@.len() as int) == f@,
                    forall|j: int| f@.len() <= j < out@.len() ==> out@[j] == 0u16,
                decreases missing - z,
            {
                out.push(0u16);
                proof {
                    assert(out@.subrange(0, f@.len() as int) =~= out@.drop_last().subrange(
                        0,
                        f@.len() as int,
                    ));
                }
                z += 1;
            }
            let mut w: usize = 0;
            while w < t.len()
                invariant
                    w <= t@.len(),
                    out@.len() == f@.len() + missing + w,
                    missing == 8 - f@.len() - t@.len(),
                    f@.len() + t@.len() <= 7,
                    out@.subrange(0, f@.len() as int) == f@,
                    forall|j: int| f@.len() <= j < f@.len() + missing ==> out@[j] == 0u16,
                    forall|j: int| 0 <= j < w ==> out@[f@.len() + missing + j] == t@[j],
                decreases t@.len() - w,
            {
                out.push(t[w]);
                proof {
                    assert(out@.subrange(0, f@.len() as int) =~= out@.drop_last().subrange(
                        0,
                        f@.len() as int,
                    ));
                }
                w += 1;
            }
            proof {
                let fv = f@.map_values(|x: u16| x as int);
                let tv = t@.map_values(|x: u16| x as int);
                assert(out@.map_values(|x: u16| x as int) =~= fv + spec_zero_groups(
                    8 - fv.len() - tv.len(),
                ) + tv);
            }
            Some(out)
        },
    }
}

/// The address that `s` spells, if it spells one.
pub fn parse_ip(s: &str) -> (r: Option<WanAddress>)
    ensures
        r == spec_parse_ip(s@),
{
    match parse_ipv4_text(s) {
        Some((a, b, c, d)) => Some(WanAddress::V4 { a, b, c, d }),
        None => {
            match parse_ipv6_groups(s) {
                Some(v) => {
                    proof {
                        let g = v@.map_values(|x: u16| x as int);
                        assert(g[0] == v@[0] as int);
                        assert(g[1] == v@[1] as int);
                        assert(g[2] == v@[2] as int);
                        assert(g[3] == v@[3] as int);
                        assert(g[4] == v@[4] as int);
                        assert(g[5] == v@[5] as int);
                        assert(g[6] == v@[6] as int);
                        assert(g[7] == v@[7] as int);
                    }
                    Some(
                        WanAddress::V6 {
                            s0: v[0],
                            s1: v[1],
                            s2: v[2],
                            s3: v[3],
                            s4: v[4],
                            s5: v[5],
                            s6: v[6],
                            s7: v[7],
                        },
                    )
                },
                None => None,
            }
        },
    }
}

} // verus!
