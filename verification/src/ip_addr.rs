//! Internet addresses and their text forms.

use crate::text::{
    ascii_lower_all, char_views, chars_of, decimal, hex_digit, join, lemma_split_nonempty,
    push_decimal, slice_of, split, split_at_char, split_undoes_join,
};
use crate::text_laws::{joining_goes_part_by_part, pieces_make_up_the_text};
use vstd::prelude::*;

verus! {

/// An address of version 4, as four bytes, or of version 6, as eight groups.
#[derive(Debug, Clone, Copy, PartialEq, Eq)]
pub enum IpAddr {
    V4([u8; 4]),
    V6([u16; 8]),
}

/// The plain contents of an [`IpAddr`].
pub enum AddrModel {
    V4(Seq<u8>),
    V6(Seq<u16>),
}

impl View for IpAddr {
    type V = AddrModel;

    open spec fn view(&self) -> AddrModel {
        match *self {
            IpAddr::V4(o) => AddrModel::V4(o@),
            IpAddr::V6(g) => AddrModel::V6(g@),
        }
    }
}

// ---------------------------------------------------------------- numbers

/// The value of a digit up to sixteen; sixteen for anything else.
pub open spec fn digit_value(c: char) -> nat {
    if '0' <= c && c <= '9' {
        (c as int - 48) as nat
    } else if 'a' <= c && c <= 'f' {
        (c as int - 87) as nat
    } else if 'A' <= c && c <= 'F' {
        (c as int - 55) as nat
    } else {
        16
    }
}

/// All characters are digits to the given base.
pub open spec fn all_digits(s: Seq<char>, base: nat) -> bool {
    forall|i: int| 0 <= i < s.len() ==> digit_value(#[trigger] s[i]) < base
}

/// The number that digits stand for.
pub open spec fn number_of(s: Seq<char>, base: nat) -> nat
    decreases s.len(),
{
    if s.len() == 0 {
        0
    } else {
        number_of(s.drop_last(), base) * base + digit_value(s.last())
    }
}

/// A byte of an address of version 4: up to three digits, no leading zero.
pub open spec fn octet_of(s: Seq<char>) -> Option<u8> {
    if 1 <= s.len() <= 3 && all_digits(s, 10) && (s.len() == 1 || s[0] != '0') && number_of(s, 10)
        < 256 {
        Some(number_of(s, 10) as u8)
    } else {
        None
    }
}

/// A group of an address of version 6: up to four hexadecimal digits.
pub open spec fn group_of(s: Seq<char>) -> Option<u16> {
    if 1 <= s.len() <= 4 && all_digits(s, 16) {
        Some(number_of(s, 16) as u16)
    } else {
        None
    }
}

// ---------------------------------------------------------------- grammar

/// The bytes that dotted pieces stand for.
pub open spec fn octets_of(pieces: Seq<Seq<char>>) -> Option<Seq<u8>>
    decreases pieces.len(),
{
    if pieces.len() == 0 {
        Some(Seq::empty())
    } else {
        match (octets_of(pieces.drop_last()), octet_of(pieces.last())) {
            (Some(head), Some(b)) => Some(head.push(b)),
            _ => None,
        }
    }
}

/// The address of version 4 that a text stands for: four bytes with dots.
pub open spec fn v4_of(s: Seq<char>) -> Option<Seq<u8>> {
    let pieces = split(s, |c: char| c == '.');
    if pieces.len() == 4 {
        octets_of(pieces)
    } else {
        None
    }
}

/// Four bytes as two groups.
pub open spec fn v4_groups(o: Seq<u8>) -> Seq<u16> {
    seq![(o[0] * 256 + o[1]) as u16, (o[2] * 256 + o[3]) as u16]
}

/// The groups that pieces stand for, none of them dotted.
pub open spec fn plain_groups(pieces: Seq<Seq<char>>) -> Option<Seq<u16>>
    decreases pieces.len(),
{
    if pieces.len() == 0 {
        Some(Seq::empty())
    } else {
        match (plain_groups(pieces.drop_last()), group_of(pieces.last())) {
            (Some(head), Some(g)) => Some(head.push(g)),
            _ => None,
        }
    }
}

/// The groups on one side of a double colon. Where `dotted` allows it, the
/// last piece may be an address of version 4 and counts for two groups.
pub open spec fn groups_of(s: Seq<char>, dotted: bool) -> Option<Seq<u16>> {
    let pieces = split(s, |c: char| c == ':');
    if s.len() == 0 {
        Some(Seq::empty())
    } else if dotted && v4_of(pieces.last()) is Some {
        match plain_groups(pieces.drop_last()) {
            Some(head) => Some(head + v4_groups(v4_of(pieces.last())->0)),
            None => None,
        }
    } else {
        plain_groups(pieces)
    }
}

/// Where the first double colon stands at or behind `from`; the length of the
/// text without one.
pub open spec fn double_colon(s: Seq<char>, from: int) -> int
    decreases s.len() - from,
{
    if from + 1 >= s.len() {
        s.len() as int
    } else if s[from] == ':' && s[from + 1] == ':' {
        from
    } else {
        double_colon(s, from + 1)
    }
}

pub open spec fn zero_groups(n: int) -> Seq<u16> {
    Seq::new(n as nat, |i: int| 0u16)
}

/// The address of version 6 that a text stands for: eight groups, or fewer
/// with one double colon in place of at least one group of zero.
pub open spec fn v6_of(s: Seq<char>) -> Option<Seq<u16>> {
    let at = double_colon(s, 0);
    if at >= s.len() {
        match groups_of(s, true) {
            Some(g) => if g.len() == 8 {
                Some(g)
            } else {
                None
            },
            None => None,
        }
    } else {
        match (groups_of(s.take(at), false), groups_of(s.skip(at + 2), true)) {
            (Some(l), Some(r)) => if l.len() + r.len() <= 7 {
                Some(l + zero_groups(8 - l.len() - r.len()) + r)
            } else {
                None
            },
            _ => None,
        }
    }
}

/// The address that a text stands for.
pub open spec fn addr_of(s: Seq<char>) -> Option<AddrModel> {
    match v4_of(s) {
        Some(o) => Some(AddrModel::V4(o)),
        None => match v6_of(s) {
            Some(g) => Some(AddrModel::V6(g)),
            None => None,
        },
    }
}

// ---------------------------------------------------------------- reading

fn read_digit(c: char) -> (r: u32)
    ensures
        r == digit_value(c),
        r <= 16,
{
    let n: u32 = c as u32;
    if '0' <= c && c <= '9' {
        n - 48
    } else if 'a' <= c && c <= 'f' {
        n - 87
    } else if 'A' <= c && c <= 'F' {
        n - 55
    } else {
        16
    }
}

/// Reads up to four digits.
fn read_number(v: &[char], base: u32) -> (r: Option<u32>)
    requires
        base == 10 || base == 16,
        v@.len() <= 4,
    ensures
        r is Some <==> all_digits(v@, base as nat),
        r matches Some(n) ==> n == number_of(v@, base as nat) && n < 65536,
{
    let mut n: u32 = 0;
    let ghost mut bound: int = 1;
    assert(v@.take(0) == Seq::<char>::empty());
    for i in 0..v.len()
        invariant
            base == 10 || base == 16,
            v@.len() <= 4,
            n == number_of(v@.take(i as int), base as nat),
            n < bound,
            bound == (if i == 0 {
                1int
            } else if i == 1 {
                16
            } else if i == 2 {
                256
            } else if i == 3 {
                4096
            } else {
                65536
            }),
            forall|j: int| 0 <= j < i ==> digit_value(#[trigger] v@[j]) < base,
    {
        let d = read_digit(v[i]);
        if d >= base {
            assert(!(digit_value(v@[i as int]) < base as nat));
            return None;
        }
        proof {
            let t = v@.take(i + 1);
            assert(t.drop_last() == v@.take(i as int));
            assert(t.last() == v@[i as int]);
            assert(n * base <= n * 16) by (nonlinear_arith)
                requires
                    base <= 16,
                    n >= 0,
            ;
            assert(number_of(t, base as nat) == n * base + d);
            bound = bound * 16;
        }
        n = n * base + d;
    }
    assert(v@.take(v@.len() as int) == v@);
    Some(n)
}

fn read_octet(v: &[char]) -> (r: Option<u8>)
    ensures
        r == octet_of(v@),
{
    if v.len() == 0 || v.len() > 3 || (v.len() > 1 && v[0] == '0') {
        return None;
    }
    match read_number(v, 10) {
        Some(n) => if n < 256 {
            Some(n as u8)
        } else {
            None
        },
        None => None,
    }
}

fn read_group(v: &[char]) -> (r: Option<u16>)
    ensures
        r == group_of(v@),
{
    if v.len() == 0 || v.len() > 4 {
        return None;
    }
    match read_number(v, 16) {
        Some(n) => Some(n as u16),
        None => None,
    }
}

proof fn lemma_octets_prefix(pieces: Seq<Seq<char>>, k: int)
    requires
        0 <= k <= pieces.len(),
        octets_of(pieces.take(k)) is None,
    ensures
        octets_of(pieces) is None,
    decreases pieces.len() - k,
{
    if k < pieces.len() {
        assert(pieces.take(k + 1).drop_last() == pieces.take(k));
        lemma_octets_prefix(pieces, k + 1);
    } else {
        assert(pieces.take(k) == pieces);
    }
}

proof fn lemma_groups_prefix(pieces: Seq<Seq<char>>, k: int)
    requires
        0 <= k <= pieces.len(),
        plain_groups(pieces.take(k)) is None,
    ensures
        plain_groups(pieces) is None,
    decreases pieces.len() - k,
{
    if k < pieces.len() {
        assert(pieces.take(k + 1).drop_last() == pieces.take(k));
        lemma_groups_prefix(pieces, k + 1);
    } else {
        assert(pieces.take(k) == pieces);
    }
}

fn read_v4(v: &[char]) -> (r: Option<[u8; 4]>)
    ensures
        r is Some <==> v4_of(v@) is Some,
        r matches Some(o) ==> v4_of(v@) == Some(o@),
{
    let pieces = split_at_char(v, '.');
    let ghost all = char_views(pieces@);
    assert(all.len() == pieces@.len());
    if pieces.len() != 4 {
        return None;
    }
    let mut out: Vec<u8> = Vec::new();
    assert(all.take(0) == Seq::<Seq<char>>::empty());
    for i in 0..4usize
        invariant
            pieces@.len() == 4,
            all == char_views(pieces@),
            all == split(v@, |c: char| c == '.'),
            out@.len() == i,
            octets_of(all.take(i as int)) == Some(out@),
    {
        proof {
            assert(all[i as int] == pieces@[i as int]@);
            assert(all.take(i + 1).drop_last() == all.take(i as int));
            assert(all.take(i + 1).last() == all[i as int]);
        }
        match read_octet(&pieces[i]) {
            Some(b) => {
                out.push(b);
            },
            None => {
                proof {
                    lemma_octets_prefix(all, i + 1);
                }
                return None;
            },
        }
    }
    assert(all.take(4) == all);
    let o: [u8; 4] = [out[0], out[1], out[2], out[3]];
    assert(o@ == out@);
    Some(o)
}

fn read_plain_groups(pieces: &Vec<Vec<char>>, n: usize) -> (r: Option<Vec<u16>>)
    requires
        n <= pieces@.len(),
    ensures
        r is Some <==> plain_groups(char_views(pieces@).take(n as int)) is Some,
        r matches Some(g) ==> plain_groups(char_views(pieces@).take(n as int)) == Some(g@),
{
    let ghost all = char_views(pieces@);
    let ghost whole = all.take(n as int);
    let mut out: Vec<u16> = Vec::new();
    assert(all.take(0) == Seq::<Seq<char>>::empty());
    for i in 0..n
        invariant
            n <= pieces@.len(),
            all == char_views(pieces@),
            whole == all.take(n as int),
            plain_groups(all.take(i as int)) == Some(out@),
    {
        proof {
            assert(all[i as int] == pieces@[i as int]@);
            assert(all.take(i + 1).drop_last() == all.take(i as int));
            assert(all.take(i + 1).last() == all[i as int]);
        }
        match read_group(&pieces[i]) {
            Some(g) => {
                out.push(g);
            },
            None => {
                proof {
                    assert(whole.take(i + 1) == all.take(i + 1));
                    lemma_groups_prefix(whole, i + 1);
                }
                return None;
            },
        }
    }
    Some(out)
}

fn read_groups(v: &[char], dotted: bool) -> (r: Option<Vec<u16>>)
    ensures
        r is Some <==> groups_of(v@, dotted) is Some,
        r matches Some(g) ==> groups_of(v@, dotted) == Some(g@),
{
    if v.len() == 0 {
        let none: Vec<u16> = Vec::new();
        assert(none@ == Seq::<u16>::empty());
        return Some(none);
    }
    let pieces = split_at_char(v, ':');
    let ghost all = char_views(pieces@);
    proof {
        lemma_split_nonempty(v@, |c: char| c == ':');
        assert(all.len() == pieces@.len());
    }
    let n: usize = pieces.len();
    assert(all.last() == pieces@[n - 1]@);
    assert(all.take(n - 1) == all.drop_last());
    assert(all.take(n as int) == all);
    if dotted {
        match read_v4(&pieces[n - 1]) {
            Some(o) => {
                return match read_plain_groups(&pieces, n - 1) {
                    Some(mut head) => {
                        let ghost before = head@;
                        head.push(o[0] as u16 * 256 + o[1] as u16);
                        head.push(o[2] as u16 * 256 + o[3] as u16);
                        assert(head@ == before + v4_groups(o@));
                        Some(head)
                    },
                    None => None,
                };
            },
            None => {},
        }
    }
    read_plain_groups(&pieces, n)
}

fn find_double_colon(v: &[char]) -> (r: usize)
    ensures
        r == double_colon(v@, 0),
        r < v@.len() ==> r + 2 <= v@.len(),
{
    let n: usize = v.len();
    let mut k: usize = 0;
    while k < n && n - k >= 2 && !(v[k] == ':' && v[k + 1] == ':')
        invariant
            n == v@.len(),
            k <= n,
            double_colon(v@, 0) == double_colon(v@, k as int),
        decreases n - k,
    {
        k = k + 1;
    }
    if n - k >= 2 {
        k
    } else {
        n
    }
}

fn eight(v: &Vec<u16>) -> (r: [u16; 8])
    requires
        v@.len() == 8,
    ensures
        r@ == v@,
{
    let g: [u16; 8] = [v[0], v[1], v[2], v[3], v[4], v[5], v[6], v[7]];
    assert(g@ == v@);
    g
}

fn read_v6(v: &[char]) -> (r: Option<[u16; 8]>)
    ensures
        r is Some <==> v6_of(v@) is Some,
        r matches Some(g) ==> v6_of(v@) == Some(g@),
{
    let at = find_double_colon(v);
    let n: usize = v.len();
    let mut all: Vec<u16> = Vec::new();
    if at >= n {
        match read_groups(v, true) {
            Some(g) => {
                if g.len() != 8 {
                    return None;
                }
                all = g;
            },
            None => {
                return None;
            },
        }
    } else {
        let left = slice_of(v, 0, at);
        let right = slice_of(v, at + 2, n);
        assert(v@.subrange(0, at as int) == v@.take(at as int));
        assert(v@.subrange(at + 2, n as int) == v@.skip(at + 2));
        let l = read_groups(&left, false);
        let r = read_groups(&right, true);
        match (l, r) {
            (Some(l), Some(r)) => {
                if l.len() > 7 || r.len() > 7 - l.len() {
                    return None;
                }
                let ghost lv = l@;
                all = l;
                let gap: usize = 8 - all.len() - r.len();
                for i in 0..gap
                    invariant
                        all@ == lv + zero_groups(i as int),
                {
                    all.push(0);
                    assert(zero_groups(i + 1) == zero_groups(i as int).push(0));
                }
                let ghost mid = all@;
                for i in 0..r.len()
                    invariant
                        all@ == mid + r@.take(i as int),
                {
                    all.push(r[i]);
                    assert(r@.take(i + 1) == r@.take(i as int).push(r@[i as int]));
                }
                assert(r@.take(r@.len() as int) == r@);
                assert(all@ == lv + zero_groups(gap as int) + r@);
            },
            _ => {
                return None;
            },
        }
    }
    Some(eight(&all))
}

impl IpAddr {
    /// Reads an address; nothing where the text is none.
    pub fn parse(text: &str) -> (r: Option<IpAddr>)
        ensures
            r is Some <==> addr_of(text@) is Some,
            r matches Some(a) ==> addr_of(text@) == Some(a@),
    {
        let v = chars_of(text);
        match read_v4(&v) {
            Some(o) => Some(IpAddr::V4(o)),
            None => match read_v6(&v) {
                Some(g) => Some(IpAddr::V6(g)),
                None => None,
            },
        }
    }
}

// ---------------------------------------------------------------- text forms

/// `n` in hexadecimal, without leading zeros.
pub open spec fn hex_text(n: nat) -> Seq<char>
    decreases n,
{
    if n < 16 {
        seq![hex_digit(n)]
    } else {
        hex_text(n / 16).push(hex_digit(n % 16))
    }
}

pub open spec fn octet_texts(o: Seq<u8>) -> Seq<Seq<char>> {
    Seq::new(o.len(), |i: int| decimal(o[i] as nat))
}

pub open spec fn group_texts(g: Seq<u16>) -> Seq<Seq<char>> {
    Seq::new(g.len(), |i: int| hex_text(g[i] as nat))
}

pub open spec fn v4_text(o: Seq<u8>) -> Seq<char> {
    join(octet_texts(o), seq!['.'])
}

pub open spec fn groups_text(g: Seq<u16>) -> Seq<char> {
    join(group_texts(g), seq![':'])
}

/// How many groups of zero follow each other from `i` on.
pub open spec fn zero_run(g: Seq<u16>, i: int) -> int
    decreases g.len() - i,
{
    if 0 <= i < g.len() && g[i] == 0 {
        1 + zero_run(g, i + 1)
    } else {
        0
    }
}

/// Where, among the first `n` groups, the first of the longest runs of zero
/// groups starts.
pub open spec fn longest_run(g: Seq<u16>, n: nat) -> int
    decreases n,
{
    if n == 0 {
        0
    } else {
        let best = longest_run(g, (n - 1) as nat);
        if zero_run(g, n - 1) > zero_run(g, best) {
            n - 1
        } else {
            best
        }
    }
}

/// Whether the groups hold an address of version 4 in the mapped form.
pub open spec fn is_mapped(g: Seq<u16>) -> bool {
    g[0] == 0 && g[1] == 0 && g[2] == 0 && g[3] == 0 && g[4] == 0 && g[5] == 0xffff
}

/// The bytes of the last two groups.
pub open spec fn mapped_octets(g: Seq<u16>) -> Seq<u8> {
    seq![
        (g[6] / 256) as u8,
        (g[6] % 256) as u8,
        (g[7] / 256) as u8,
        (g[7] % 256) as u8,
    ]
}

pub open spec fn mapped_prefix() -> Seq<char> {
    seq![':', ':', 'f', 'f', 'f', 'f', ':']
}

/// The text of an address of version 6: the first of the longest runs of zero
/// groups becomes a double colon, and a mapped address of version 4 is shown
/// as such.
pub open spec fn v6_text(g: Seq<u16>) -> Seq<char> {
    let start = longest_run(g, g.len());
    let n = zero_run(g, start);
    if is_mapped(g) {
        mapped_prefix() + v4_text(mapped_octets(g))
    } else if n > 1 {
        groups_text(g.take(start)) + seq![':', ':'] + groups_text(g.skip(start + n))
    } else {
        groups_text(g)
    }
}

/// The text of an address.
pub open spec fn addr_text(a: AddrModel) -> Seq<char> {
    match a {
        AddrModel::V4(o) => v4_text(o),
        AddrModel::V6(g) => v6_text(g),
    }
}

fn push_hex_text(s: &mut String, n: u16)
    ensures
        final(s)@ == old(s)@ + hex_text(n as nat),
    decreases n,
{
    if n >= 16 {
        push_hex_text(s, n / 16);
    }
    let d: u8 = (n % 16) as u8;
    s.push(
        if d < 10 {
            (48 + d) as char
        } else {
            (87 + d) as char
        },
    );
    assert(s@ == old(s)@ + hex_text(n as nat));
}

fn push_v4(s: &mut String, o: &[u8; 4])
    ensures
        final(s)@ == old(s)@ + v4_text(o@),
{
    let ghost start = s@;
    let ghost all = octet_texts(o@);
    let ghost dot = seq!['.'];
    assert(all.take(0) == Seq::<Seq<char>>::empty());
    for i in 0..4usize
        invariant
            all == octet_texts(o@),
            all.len() == 4,
            dot == seq!['.'],
            s@ == start + join(all.take(i as int), dot),
    {
        let ghost before = s@;
        if i > 0 {
            s.push('.');
        }
        push_decimal(s, o[i] as u128);
        proof {
            lemma_join_step(all, dot, i as int);
            if i == 0 {
                assert(before == start);
            }
            assert(s@ == start + join(all.take(i + 1), dot));
        }
    }
    assert(all.take(4) == all);
}

proof fn lemma_join_step(all: Seq<Seq<char>>, sep: Seq<char>, i: int)
    requires
        0 <= i < all.len(),
    ensures
        join(all.take(i + 1), sep) == if i == 0 {
            all[i]
        } else {
            join(all.take(i), sep) + sep + all[i]
        },
        i == 0 ==> join(all.take(i), sep) == Seq::<char>::empty(),
{
    let next = all.take(i + 1);
    assert(next.drop_last() == all.take(i));
    assert(next.last() == all[i]);
    if i == 0 {
        assert(next[0] == all[0]);
        assert(all.take(0).len() == 0);
    }
}

/// Appends the groups from `from` up to `to`.
fn push_groups(s: &mut String, g: &[u16; 8], from: usize, to: usize)
    requires
        from <= to <= 8,
    ensures
        final(s)@ == old(s)@ + groups_text(g@.subrange(from as int, to as int)),
{
    let ghost start = s@;
    let ghost part = g@.subrange(from as int, to as int);
    let ghost all = group_texts(part);
    let ghost colon = seq![':'];
    assert(all.take(0) == Seq::<Seq<char>>::empty());
    for i in from..to
        invariant
            from <= to <= 8,
            part == g@.subrange(from as int, to as int),
            all == group_texts(part),
            colon == seq![':'],
            s@ == start + join(all.take(i - from), colon),
    {
        if i > from {
            s.push(':');
        }
        push_hex_text(s, g[i]);
        proof {
            let k = i - from;
            assert(part[k] == g@[i as int]);
            assert(all[k] == hex_text(g@[i as int] as nat));
            lemma_join_step(all, colon, k);
            assert(s@ == start + join(all.take(k + 1), colon));
        }
    }
    assert(all.take(to - from) == all);
}

fn count_zero_run(g: &[u16; 8], i: usize) -> (r: usize)
    requires
        i <= 8,
    ensures
        r == zero_run(g@, i as int),
        r <= 8 - i,
    decreases 8 - i,
{
    if i < 8 && g[i] == 0 {
        1 + count_zero_run(g, i + 1)
    } else {
        0
    }
}

impl IpAddr {
    /// Whether both are the same address.
    pub fn same(&self, other: &IpAddr) -> (r: bool)
        ensures
            r == (self@ == other@),
    {
        match (self, other) {
            (IpAddr::V4(a), IpAddr::V4(b)) => {
                let same = a[0] == b[0] && a[1] == b[1] && a[2] == b[2] && a[3] == b[3];
                assert(same ==> a@ == b@);
                same
            },
            (IpAddr::V6(a), IpAddr::V6(b)) => {
                let same = a[0] == b[0] && a[1] == b[1] && a[2] == b[2] && a[3] == b[3] && a[4]
                    == b[4] && a[5] == b[5] && a[6] == b[6] && a[7] == b[7];
                assert(same ==> a@ == b@);
                same
            },
            _ => false,
        }
    }

    /// The text of the address.
    pub fn to_text(&self) -> (r: String)
        ensures
            r@ == addr_text(self@),
    {
        let mut s = String::new();
        match self {
            IpAddr::V4(o) => {
                push_v4(&mut s, o);
            },
            IpAddr::V6(g) => {
                if g[0] == 0 && g[1] == 0 && g[2] == 0 && g[3] == 0 && g[4] == 0 && g[5] == 0xffff {
                    s.push_str("::ffff:");
                    proof {
                        reveal_strlit("::ffff:");
                    }
                    assert(s@ == mapped_prefix());
                    let o: [u8; 4] = [
                        (g[6] / 256) as u8,
                        (g[6] % 256) as u8,
                        (g[7] / 256) as u8,
                        (g[7] % 256) as u8,
                    ];
                    assert(o@ == mapped_octets(g@));
                    push_v4(&mut s, &o);
                } else {
                    let mut best: usize = 0;
                    let mut len: usize = count_zero_run(g, 0);
                    assert(longest_run(g@, 0) == 0);
                    for i in 1..8usize
                        invariant
                            best == longest_run(g@, i as nat),
                            len == zero_run(g@, best as int),
                            best < 8,
                            best + len <= 8,
                    {
                        let n = count_zero_run(g, i);
                        if n > len {
                            best = i;
                            len = n;
                        }
                    }
                    if len > 1 {
                        push_groups(&mut s, g, 0, best);
                        s.push(':');
                        s.push(':');
                        push_groups(&mut s, g, best + len, 8);
                        proof {
                            assert(g@.subrange(0, best as int) == g@.take(best as int));
                            assert(g@.subrange(best + len, 8) == g@.skip(best + len));
                            let l = groups_text(g@.take(best as int));
                            let r = groups_text(g@.skip(best + len));
                            assert(s@ == l + seq![':', ':'] + r);
                        }
                    } else {
                        push_groups(&mut s, g, 0, 8);
                        assert(g@.subrange(0, 8) == g@);
                    }
                }
            },
        }
        assert(s@ == addr_text(self@));
        s
    }
}

// ---------------------------------------------------------------- laws

proof fn lemma_decimal_octet(b: nat)
    requires
        b < 256,
    ensures
        octet_of(decimal(b)) == Some(b as u8),
        !decimal(b).contains('.'),
        !decimal(b).contains(':'),
{
    reveal_with_fuel(decimal, 3);
    reveal_with_fuel(number_of, 4);
    let s = decimal(b);
    if b < 10 {
        assert(s == seq![(48 + b) as char]);
    } else if b < 100 {
        assert(s == seq![(48 + b / 10) as char, (48 + b % 10) as char]);
        assert(s.drop_last() == seq![(48 + b / 10) as char]);
    } else {
        assert(s == seq![
            (48 + b / 100) as char,
            (48 + b / 10 % 10) as char,
            (48 + b % 10) as char,
        ]);
        assert(s.drop_last() == seq![(48 + b / 100) as char, (48 + b / 10 % 10) as char]);
        assert(s.drop_last().drop_last() == seq![(48 + b / 100) as char]);
    }
    assert(all_digits(s, 10));
    assert(number_of(s, 10) == b);
}

proof fn lemma_hex_group(g: nat)
    requires
        g < 65536,
    ensures
        group_of(hex_text(g)) == Some(g as u16),
        hex_text(g).len() > 0,
        !hex_text(g).contains('.'),
        !hex_text(g).contains(':'),
{
    lemma_hex_number(g, 4);
    let s = hex_text(g);
    assert forall|i: int| 0 <= i < s.len() implies digit_value(#[trigger] s[i]) < 16 by {
        assert(is_small_hex(s[i]));
    }
    if s.contains('.') {
        let i = choose|i: int| 0 <= i < s.len() && s[i] == '.';
        assert(is_small_hex(s[i]));
    }
    if s.contains(':') {
        let i = choose|i: int| 0 <= i < s.len() && s[i] == ':';
        assert(is_small_hex(s[i]));
    }
}

spec fn is_small_hex(c: char) -> bool {
    ('0' <= c && c <= '9') || ('a' <= c && c <= 'f')
}

spec fn power16(n: nat) -> nat {
    if n == 0 {
        1
    } else if n == 1 {
        16
    } else if n == 2 {
        256
    } else if n == 3 {
        4096
    } else {
        65536
    }
}

proof fn lemma_hex_number(g: nat, n: nat)
    requires
        1 <= n <= 4,
        g < power16(n),
    ensures
        1 <= hex_text(g).len() <= n,
        number_of(hex_text(g), 16) == g,
        forall|i: int| 0 <= i < hex_text(g).len() ==> is_small_hex(#[trigger] hex_text(g)[i]),
    decreases n,
{
    let s = hex_text(g);
    if g < 16 {
        assert(s.drop_last() == Seq::<char>::empty());
        assert(number_of(s.drop_last(), 16) == 0);
    } else {
        assert(n > 1);
        lemma_hex_number(g / 16, (n - 1) as nat);
        let head = hex_text(g / 16);
        assert(s.drop_last() == head);
        assert forall|i: int| 0 <= i < s.len() implies is_small_hex(#[trigger] s[i]) by {
            if i < head.len() {
                assert(s[i] == head[i]);
            }
        }
    }
}

proof fn lemma_octets(o: Seq<u8>)
    ensures
        octets_of(octet_texts(o)) == Some(o),
    decreases o.len(),
{
    if o.len() > 0 {
        let init = o.drop_last();
        lemma_octets(init);
        assert(octet_texts(o).drop_last() == octet_texts(init));
        lemma_decimal_octet(o.last() as nat);
        assert(init.push(o.last()) == o);
    } else {
        assert(octets_of(octet_texts(o)) == Some(Seq::<u8>::empty()));
        assert(o == Seq::<u8>::empty());
    }
}

proof fn lemma_plain_groups(g: Seq<u16>)
    ensures
        plain_groups(group_texts(g)) == Some(g),
    decreases g.len(),
{
    if g.len() > 0 {
        let init = g.drop_last();
        lemma_plain_groups(init);
        assert(group_texts(g).drop_last() == group_texts(init));
        lemma_hex_group(g.last() as nat);
        assert(init.push(g.last()) == g);
    } else {
        assert(plain_groups(group_texts(g)) == Some(Seq::<u16>::empty()));
        assert(g == Seq::<u16>::empty());
    }
}

proof fn lemma_v4_text(o: Seq<u8>)
    requires
        o.len() == 4,
    ensures
        v4_of(v4_text(o)) == Some(o),
        !v4_text(o).contains(':'),
        v4_text(o).len() > 0,
{
    let parts = octet_texts(o);
    assert forall|i: int| 0 <= i < parts.len() implies !(#[trigger] parts[i]).contains('.') by {
        lemma_decimal_octet(o[i] as nat);
    }
    split_undoes_join(parts, '.');
    lemma_octets(o);
    assert forall|i: int| 0 <= i < parts.len() implies !(#[trigger] parts[i]).contains(':')
        && parts[i].len() > 0 by {
        lemma_decimal_octet(o[i] as nat);
    }
    lemma_join_avoids(parts, '.', ':');
}

proof fn lemma_join_avoids(parts: Seq<Seq<char>>, sep: char, c: char)
    requires
        sep != c,
        parts.len() > 0,
        forall|i: int|
            0 <= i < parts.len() ==> !(#[trigger] parts[i]).contains(c) && parts[i].len() > 0,
    ensures
        !join(parts, seq![sep]).contains(c),
        join(parts, seq![sep]).len() > 0,
    decreases parts.len(),
{
    let s = join(parts, seq![sep]);
    if parts.len() == 1 {
        assert(s == parts[0]);
    } else {
        let init = parts.drop_last();
        assert forall|i: int| 0 <= i < init.len() implies !(#[trigger] init[i]).contains(c)
            && init[i].len() > 0 by {
            assert(init[i] == parts[i]);
        }
        lemma_join_avoids(init, sep, c);
        let head = join(init, seq![sep]);
        let last = parts.last();
        assert(!parts[parts.len() - 1].contains(c));
        assert(s == head + seq![sep] + last);
        if s.contains(c) {
            let i = choose|i: int| 0 <= i < s.len() && s[i] == c;
            if i < head.len() {
                assert(head[i] == c);
            } else if i > head.len() {
                assert(last[i - head.len() - 1] == c);
            }
        }
    }
}

/// No double colon, and no colon at either end.
spec fn is_calm(s: Seq<char>) -> bool {
    &&& forall|i: int|
        0 <= i < s.len() - 1 ==> !(#[trigger] s[i] == ':' && s[i + 1] == ':')
    &&& s.len() > 0 ==> s[0] != ':' && s.last() != ':'
}

proof fn lemma_groups_text(g: Seq<u16>)
    ensures
        is_calm(groups_text(g)),
        !groups_text(g).contains('.'),
        g.len() > 0 ==> groups_text(g).len() > 0,
        g.len() > 0 ==> split(groups_text(g), |c: char| c == ':') == group_texts(g),
    decreases g.len(),
{
    let parts = group_texts(g);
    let s = groups_text(g);
    assert forall|i: int| 0 <= i < parts.len() implies !(#[trigger] parts[i]).contains(':')
        && !parts[i].contains('.') && parts[i].len() > 0 by {
        lemma_hex_group(g[i] as nat);
    }
    if g.len() > 0 {
        split_undoes_join(parts, ':');
        lemma_join_avoids(parts, ':', '.');
        let last = parts.last();
        assert(!parts[parts.len() - 1].contains(':') && parts[parts.len() - 1].len() > 0);
        assert(last[0] != ':') by {
            assert(last.contains(last[0]));
        }
        assert(last[last.len() - 1] != ':') by {
            assert(last.contains(last[last.len() - 1]));
        }
        if g.len() == 1 {
            assert(s == last);
            assert forall|i: int| 0 <= i < s.len() - 1 implies !(#[trigger] s[i] == ':' && s[i + 1]
                == ':') by {
                assert(last.contains(s[i]));
            }
        } else {
            let init = g.drop_last();
            lemma_groups_text(init);
            assert(parts.drop_last() == group_texts(init));
            let head = groups_text(init);
            assert(s == head + seq![':'] + last);
            assert(s[0] == head[0]);
            assert(s.last() == last[last.len() - 1]);
            assert forall|i: int| 0 <= i < s.len() - 1 implies !(#[trigger] s[i] == ':' && s[i + 1]
                == ':') by {
                if i < head.len() - 1 {
                    assert(s[i] == head[i] && s[i + 1] == head[i + 1]);
                } else if i == head.len() - 1 {
                    assert(s[i] == head.last());
                } else if i == head.len() {
                    assert(s[i + 1] == last[0]);
                } else {
                    assert(s[i] == last[i - head.len() - 1]);
                    assert(last.contains(s[i]));
                }
            }
        }
    } else {
        assert(s == Seq::<char>::empty());
    }
}

proof fn lemma_groups_read(g: Seq<u16>, dotted: bool)
    ensures
        groups_of(groups_text(g), dotted) == Some(g),
{
    lemma_groups_text(g);
    lemma_plain_groups(g);
    if g.len() > 0 {
        let last = group_texts(g).last();
        lemma_hex_group(g.last() as nat);
        assert(last == hex_text(g.last() as nat));
        let one = seq![last];
        assert(join(one, seq!['.']) == last);
        split_undoes_join(one, '.');
        assert(v4_of(last) is None);
    } else {
        assert(groups_text(g) == Seq::<char>::empty());
        assert(g == Seq::<u16>::empty());
    }
}

proof fn lemma_no_double_colon(s: Seq<char>, from: int)
    requires
        is_calm(s),
        0 <= from,
    ensures
        double_colon(s, from) == s.len(),
    decreases s.len() - from,
{
    if from + 1 < s.len() {
        assert(!(s[from] == ':' && s[from + 1] == ':'));
        lemma_no_double_colon(s, from + 1);
    }
}

proof fn lemma_finds_double_colon(l: Seq<char>, r: Seq<char>, from: int)
    requires
        is_calm(l),
        0 <= from <= l.len(),
    ensures
        double_colon(l + seq![':', ':'] + r, from) == l.len(),
    decreases l.len() - from,
{
    let s = l + seq![':', ':'] + r;
    assert(s[l.len() as int] == ':' && s[l.len() as int + 1] == ':');
    if from < l.len() {
        assert(s[from] == l[from]);
        if from + 1 < l.len() {
            assert(s[from + 1] == l[from + 1]);
            assert(!(l[from] == ':' && l[from + 1] == ':'));
        }
        lemma_finds_double_colon(l, r, from + 1);
    }
}

proof fn lemma_zero_run(g: Seq<u16>, i: int)
    requires
        0 <= i <= g.len(),
    ensures
        0 <= zero_run(g, i) <= g.len() - i,
        forall|j: int| i <= j < i + zero_run(g, i) ==> g[j] == 0,
    decreases g.len() - i,
{
    if i < g.len() && g[i] == 0 {
        lemma_zero_run(g, i + 1);
    }
}

proof fn lemma_longest_run(g: Seq<u16>, n: nat)
    requires
        n <= g.len(),
        g.len() > 0,
    ensures
        0 <= longest_run(g, n) < g.len(),
    decreases n,
{
    if n > 0 {
        lemma_longest_run(g, (n - 1) as nat);
    }
}

proof fn lemma_no_dots_no_v4(s: Seq<char>)
    requires
        !s.contains('.'),
    ensures
        v4_of(s) is None,
{
    let one = seq![s];
    assert(join(one, seq!['.']) == s);
    split_undoes_join(one, '.');
}

proof fn lemma_mapped_is_not_v4(g: Seq<u16>)
    requires
        g.len() == 8,
        is_mapped(g),
    ensures
        v4_of(v6_text(g)) is None,
{
    let o = mapped_octets(g);
    let s = v6_text(g);
    let parts = octet_texts(o);
    let front = mapped_prefix() + parts[0];
    let shifted = seq![front, parts[1], parts[2], parts[3]];
    assert forall|i: int| 0 <= i < 4 implies !(#[trigger] shifted[i]).contains('.') by {
        lemma_decimal_octet(o[i] as nat);
        if i == 0 && front.contains('.') {
            let k = choose|k: int| 0 <= k < front.len() && front[k] == '.';
            if k >= 7 {
                assert(parts[0][k - 7] == '.');
            }
        }
    }
    let dot = seq!['.'];
    lemma_join_four(parts, dot);
    lemma_join_four(shifted, dot);
    assert(s == join(shifted, dot));
    split_undoes_join(shifted, '.');
    assert(octet_of(front) is None) by {
        assert(front.len() >= 7);
    }
    assert(shifted.take(1).last() == front);
    lemma_octets_prefix(shifted, 1);
}

proof fn lemma_join_four(parts: Seq<Seq<char>>, sep: Seq<char>)
    requires
        parts.len() == 4,
    ensures
        join(parts, sep) == parts[0] + sep + parts[1] + sep + parts[2] + sep + parts[3],
{
    let a = parts.drop_last();
    let b = a.drop_last();
    let c = b.drop_last();
    assert(join(c, sep) == parts[0]);
    assert(join(b, sep) == parts[0] + sep + parts[1]);
    assert(join(a, sep) == parts[0] + sep + parts[1] + sep + parts[2]);
}

proof fn lemma_ffff()
    ensures
        group_of(seq!['f', 'f', 'f', 'f']) == Some(0xffffu16),
        plain_groups(seq![seq!['f', 'f', 'f', 'f']]) == Some(seq![0xffffu16]),
{
    let word = seq!['f', 'f', 'f', 'f'];
    let a = word.drop_last();
    let b = a.drop_last();
    let c = b.drop_last();
    let d = c.drop_last();
    assert(digit_value('f') == 15);
    assert(d.len() == 0);
    assert(number_of(d, 16) == 0);
    assert(number_of(c, 16) == 15);
    assert(number_of(b, 16) == 255);
    assert(number_of(a, 16) == 4095);
    assert(number_of(word, 16) == 65535);
    let one = seq![word];
    assert(one.drop_last() == Seq::<Seq<char>>::empty());
    assert(plain_groups(one.drop_last()) == Some(Seq::<u16>::empty()));
    assert(Seq::<u16>::empty().push(0xffffu16) == seq![0xffffu16]);
}

proof fn lemma_mapped_text(g: Seq<u16>)
    requires
        g.len() == 8,
        is_mapped(g),
    ensures
        v6_of(v6_text(g)) == Some(g),
{
    let o = mapped_octets(g);
    let tail = v4_text(o);
    let s = v6_text(g);
    lemma_v4_text(o);
    assert(s[0] == ':' && s[1] == ':');
    assert(double_colon(s, 0) == 0);
    let word = seq!['f', 'f', 'f', 'f'];
    let right = s.skip(2);
    let two = seq![word, tail];
    assert(right == word + seq![':'] + tail);
    assert(two.drop_last() == seq![word]);
    assert(join(seq![word], seq![':']) == word);
    assert(join(two, seq![':']) == right);
    assert forall|i: int| 0 <= i < 2 implies !(#[trigger] two[i]).contains(':') by {
        if i == 0 && word.contains(':') {
            let k = choose|k: int| 0 <= k < word.len() && word[k] == ':';
        }
    }
    split_undoes_join(two, ':');
    lemma_ffff();
    let r = seq![0xffffu16] + v4_groups(o);
    assert(groups_of(right, true) == Some(r));
    assert(s.take(0) == Seq::<char>::empty());
    assert(groups_of(s.take(0), false) == Some(Seq::<u16>::empty()));
    assert(v4_groups(o) == seq![g[6], g[7]]);
    assert(Seq::<u16>::empty() + zero_groups(5) + r == g);
}

proof fn lemma_around_colons_no_v4(l: Seq<char>, r: Seq<char>)
    requires
        !l.contains('.'),
        !r.contains('.'),
    ensures
        v4_of(l + seq![':', ':'] + r) is None,
{
    let s = l + seq![':', ':'] + r;
    if s.contains('.') {
        let i = choose|i: int| 0 <= i < s.len() && s[i] == '.';
        if i < l.len() {
            assert(l[i] == '.');
        } else if i >= l.len() + 2 {
            assert(r[i - l.len() - 2] == '.');
        }
    }
    lemma_no_dots_no_v4(s);
}

proof fn lemma_zeros_between(g: Seq<u16>, start: int, n: int)
    requires
        0 <= start,
        0 <= n,
        start + n <= g.len(),
        forall|j: int| start <= j < start + n ==> g[j] == 0,
    ensures
        g.take(start) + zero_groups(n) + g.skip(start + n) == g,
{
    assert(g.take(start) + zero_groups(n) + g.skip(start + n) =~= g);
}

#[verifier::spinoff_prover]
proof fn lemma_compressed_text(g: Seq<u16>, start: int, n: int)
    requires
        g.len() == 8,
        0 <= start,
        1 < n,
        start + n <= 8,
        forall|j: int| start <= j < start + n ==> g[j] == 0,
    ensures
        ({
            let s = groups_text(g.take(start)) + seq![':', ':'] + groups_text(g.skip(start + n));
            v4_of(s) is None && v6_of(s) == Some(g)
        }),
{
    let l = groups_text(g.take(start));
    let r = groups_text(g.skip(start + n));
    let s = l + seq![':', ':'] + r;
    lemma_groups_text(g.take(start));
    lemma_groups_text(g.skip(start + n));
    lemma_groups_read(g.take(start), false);
    lemma_groups_read(g.skip(start + n), true);
    lemma_finds_double_colon(l, r, 0);
    assert(s.take(l.len() as int) == l);
    assert(s.skip(l.len() as int + 2) == r);
    lemma_around_colons_no_v4(l, r);
    lemma_zeros_between(g, start, n);
}

/// An address is read back from its text.
pub proof fn text_reads_back(a: AddrModel)
    requires
        a matches AddrModel::V4(o) ==> o.len() == 4,
        a matches AddrModel::V6(g) ==> g.len() == 8,
    ensures
        addr_of(addr_text(a)) == Some(a),
{
    match a {
        AddrModel::V4(o) => {
            lemma_v4_text(o);
        },
        AddrModel::V6(g) => {
            if is_mapped(g) {
                lemma_mapped_is_not_v4(g);
                lemma_mapped_text(g);
            } else {
                let start = longest_run(g, 8);
                lemma_longest_run(g, 8);
                lemma_zero_run(g, start);
                if zero_run(g, start) > 1 {
                    lemma_compressed_text(g, start, zero_run(g, start));
                } else {
                    let s = groups_text(g);
                    lemma_groups_text(g);
                    lemma_groups_read(g, true);
                    lemma_no_double_colon(s, 0);
                    lemma_no_dots_no_v4(s);
                }
            }
        },
    }
}

proof fn lemma_octet_is_decimal(p: Seq<char>)
    ensures
        octet_of(p) matches Some(b) ==> p == decimal(b as nat),
{
    reveal_with_fuel(decimal, 3);
    reveal_with_fuel(number_of, 4);
    if let Some(b) = octet_of(p) {
        assert(digit_value(p[0]) < 10);
        if p.len() == 1 {
            assert(p.drop_last() =~= Seq::<char>::empty());
            assert(p =~= decimal(b as nat));
        } else if p.len() == 2 {
            assert(digit_value(p[1]) < 10);
            assert(p.drop_last() =~= seq![p[0]]);
            assert(p.drop_last().drop_last() =~= Seq::<char>::empty());
            assert(b == 10 * digit_value(p[0]) + digit_value(p[1]));
            assert(p =~= decimal(b as nat));
        } else {
            assert(digit_value(p[1]) < 10 && digit_value(p[2]) < 10);
            assert(p.drop_last() =~= seq![p[0], p[1]]);
            assert(p.drop_last().drop_last() =~= seq![p[0]]);
            assert(p.drop_last().drop_last().drop_last() =~= Seq::<char>::empty());
            let n = 100 * digit_value(p[0]) + 10 * digit_value(p[1]) + digit_value(p[2]);
            assert(b == n);
            assert(n / 10 == 10 * digit_value(p[0]) + digit_value(p[1]) && n % 10 == digit_value(
                p[2],
            ));
            assert(decimal((n / 10) as nat) =~= seq![p[0], p[1]]);
            assert(p =~= decimal(b as nat));
        }
    }
}

proof fn lemma_octets_are_decimal(pieces: Seq<Seq<char>>)
    ensures
        octets_of(pieces) matches Some(o) ==> pieces == octet_texts(o),
    decreases pieces.len(),
{
    if pieces.len() > 0 {
        lemma_octets_are_decimal(pieces.drop_last());
        lemma_octet_is_decimal(pieces.last());
        if let Some(o) = octets_of(pieces) {
            let head = octets_of(pieces.drop_last())->0;
            assert(o.drop_last() =~= head);
            assert(pieces =~= pieces.drop_last().push(pieces.last()));
            assert(octet_texts(o) =~= octet_texts(head).push(decimal(o.last() as nat)));
        }
    } else {
        assert(pieces =~= octet_texts(Seq::<u8>::empty()));
    }
}

/// Four numbers with dots between them.
pub open spec fn dotted(a: u8, b: u8, c: u8, d: u8) -> Seq<char> {
    decimal(a as nat).push('.') + decimal(b as nat).push('.') + decimal(c as nat).push('.')
        + decimal(d as nat)
}

/// A text stands for an address of version 4 exactly where it is its four bytes
/// in decimal, in their order, with dots between them, and that is how the
/// address is written.
pub proof fn dotted_numbers_are_addresses(s: Seq<char>, a: u8, b: u8, c: u8, d: u8)
    ensures
        addr_text(AddrModel::V4(seq![a, b, c, d])) == dotted(a, b, c, d),
        addr_of(s) == Some(AddrModel::V4(seq![a, b, c, d])) <==> s == dotted(a, b, c, d),
{
    let o = seq![a, b, c, d];
    let dot = seq!['.'];
    let parts = octet_texts(o);
    lemma_join_four(parts, dot);
    assert(v4_text(o) =~= dotted(a, b, c, d));
    lemma_v4_text(o);
    if v4_of(s) == Some(o) {
        pieces_make_up_the_text(s, '.');
        lemma_octets_are_decimal(split(s, |x: char| x == '.'));
    }
}

/// A text of eight groups with colons between them stands for these groups; with
/// a double colon, for the groups before it, as many zeros as make eight groups,
/// and the groups behind it. At least one zero must be left out.
pub proof fn colons_part_groups(l: Seq<u16>, r: Seq<u16>)
    ensures
        l.len() == 8 ==> addr_of(groups_text(l)) == Some(AddrModel::V6(l)),
        l.len() != 8 ==> addr_of(groups_text(l)) is None,
        l.len() + r.len() <= 7 ==> addr_of(groups_text(l) + seq![':', ':'] + groups_text(r))
            == Some(
            AddrModel::V6(
                l + Seq::new((8 - l.len() - r.len()) as nat, |i: int| 0u16) + r,
            ),
        ),
        l.len() + r.len() > 7 ==> addr_of(groups_text(l) + seq![':', ':'] + groups_text(r)) is None,
{
    let lt = groups_text(l);
    let rt = groups_text(r);
    lemma_groups_text(l);
    lemma_groups_text(r);
    lemma_groups_read(l, true);
    lemma_groups_read(l, false);
    lemma_groups_read(r, true);
    lemma_no_double_colon(lt, 0);
    lemma_no_dots_no_v4(lt);
    let s = lt + seq![':', ':'] + rt;
    lemma_finds_double_colon(lt, rt, 0);
    assert(s.take(lt.len() as int) =~= lt);
    assert(s.skip(lt.len() as int + 2) =~= rt);
    lemma_around_colons_no_v4(lt, rt);
    if l.len() + r.len() <= 7 {
        assert(zero_groups(8 - l.len() - r.len()) =~= Seq::new(
            (8 - l.len() - r.len()) as nat,
            |i: int| 0u16,
        ));
    }
}

proof fn lemma_calm_with_dots(l: Seq<u16>, tail: Seq<char>)
    requires
        l.len() > 0,
        tail.len() > 0,
        !tail.contains(':'),
    ensures
        is_calm(groups_text(l).push(':') + tail),
{
    let head = groups_text(l);
    let s = head.push(':') + tail;
    lemma_groups_text(l);
    assert(tail.contains(tail[0]) && tail.contains(tail[tail.len() - 1]));
    assert(s[0] == head[0] && s.last() == tail.last());
    assert forall|i: int| 0 <= i < s.len() - 1 implies !(#[trigger] s[i] == ':' && s[i + 1] == ':') by {
        if i < head.len() - 1 {
            assert(s[i] == head[i] && s[i + 1] == head[i + 1]);
        } else if i == head.len() - 1 {
            assert(s[i] == head.last());
        } else if i == head.len() {
            assert(s[i + 1] == tail[0]);
        } else {
            assert(s[i] == tail[i - head.len() - 1]);
            assert(tail.contains(s[i]));
        }
    }
}

/// The groups of a text that ends in four bytes with dots.
pub open spec fn groups_with_bytes(l: Seq<u16>, a: u8, b: u8, c: u8, d: u8) -> Seq<char> {
    if l.len() == 0 {
        dotted(a, b, c, d)
    } else {
        groups_text(l).push(':') + dotted(a, b, c, d)
    }
}

proof fn lemma_groups_with_bytes(l: Seq<u16>, a: u8, b: u8, c: u8, d: u8)
    ensures
        groups_of(groups_with_bytes(l, a, b, c, d), true) == Some(
            l + seq![(256 * a + b) as u16, (256 * c + d) as u16],
        ),
{
    let tail = dotted(a, b, c, d);
    let o = seq![a, b, c, d];
    let s = groups_with_bytes(l, a, b, c, d);
    dotted_numbers_are_addresses(tail, a, b, c, d);
    lemma_v4_text(o);
    let parts = group_texts(l).push(tail);
    assert forall|i: int| 0 <= i < parts.len() implies !(#[trigger] parts[i]).contains(':') by {
        if i < l.len() {
            lemma_hex_group(l[i] as nat);
        }
    }
    split_undoes_join(parts, ':');
    joining_goes_part_by_part(group_texts(l), tail, seq![':']);
    if l.len() == 0 {
        assert(parts =~= seq![tail]);
        assert(join(parts, seq![':']) == s);
    } else {
        assert(groups_text(l) + seq![':'] + tail =~= s);
    }
    lemma_plain_groups(l);
    assert(parts.drop_last() =~= group_texts(l));
    assert(v4_groups(o) =~= seq![(256 * a + b) as u16, (256 * c + d) as u16]);
}

/// The last two of eight groups may be written as four bytes with dots, behind a
/// double colon too.
pub proof fn bytes_may_end_an_address(
    l: Seq<u16>,
    r: Seq<u16>,
    a: u8,
    b: u8,
    c: u8,
    d: u8,
)
    ensures
        l.len() == 6 ==> addr_of(groups_with_bytes(l, a, b, c, d)) == Some(
            AddrModel::V6(l + seq![(256 * a + b) as u16, (256 * c + d) as u16]),
        ),
        l.len() + r.len() <= 5 ==> addr_of(
            groups_text(l) + seq![':', ':'] + groups_with_bytes(r, a, b, c, d),
        ) == Some(
            AddrModel::V6(
                l + Seq::new((6 - l.len() - r.len()) as nat, |i: int| 0u16) + r + seq![
                    (256 * a + b) as u16,
                    (256 * c + d) as u16,
                ],
            ),
        ),
{
    let tail = dotted(a, b, c, d);
    let last = seq![(256 * a + b) as u16, (256 * c + d) as u16];
    dotted_numbers_are_addresses(tail, a, b, c, d);
    lemma_v4_text(seq![a, b, c, d]);
    if l.len() == 6 {
        let s = groups_with_bytes(l, a, b, c, d);
        lemma_groups_with_bytes(l, a, b, c, d);
        lemma_calm_with_dots(l, tail);
        lemma_no_double_colon(s, 0);
        lemma_colon_no_v4(s, groups_text(l).len() as int);
    }
    if l.len() + r.len() <= 5 {
        let lt = groups_text(l);
        let rt = groups_with_bytes(r, a, b, c, d);
        let s = lt + seq![':', ':'] + rt;
        lemma_groups_text(l);
        lemma_groups_read(l, false);
        lemma_groups_with_bytes(r, a, b, c, d);
        lemma_finds_double_colon(lt, rt, 0);
        assert(s.take(lt.len() as int) =~= lt);
        assert(s.skip(lt.len() as int + 2) =~= rt);
        lemma_colon_no_v4(s, lt.len() as int);
        let zeros = Seq::new((6 - l.len() - r.len()) as nat, |i: int| 0u16);
        assert(zero_groups(8 - l.len() - (r + last).len()) =~= zeros);
        assert(l + zeros + (r + last) =~= l + zeros + r + last);
    }
}

proof fn lemma_colon_no_v4(s: Seq<char>, at: int)
    requires
        0 <= at < s.len(),
        s[at] == ':',
    ensures
        v4_of(s) is None,
{
    if let Some(o) = v4_of(s) {
        pieces_make_up_the_text(s, '.');
        lemma_octets_are_decimal(split(s, |x: char| x == '.'));
        lemma_v4_text(o);
        assert(s == v4_text(o));
        assert(s.contains(s[at]));
    }
}

/// The value of a hexadecimal digit in small letters.
pub open spec fn small_digit(c: char) -> int {
    if c as int >= 97 {
        c as int - 87
    } else {
        c as int - 48
    }
}

/// The number that hexadecimal digits stand for.
pub open spec fn read_hex(s: Seq<char>) -> int
    decreases s.len(),
{
    if s.len() == 0 {
        0
    } else {
        16 * read_hex(s.drop_last()) + small_digit(s.last())
    }
}

/// A number in hexadecimal is read back from its digits, which are small letters
/// without a zero in front.
pub proof fn hexadecimal_reads_back(n: nat)
    ensures
        read_hex(hex_text(n)) == n,
        hex_text(n).len() > 0,
        n > 0 ==> hex_text(n)[0] != '0',
        forall|i: int|
            0 <= i < hex_text(n).len() ==> 48 <= (#[trigger] hex_text(n)[i]) as int <= 57 || 97
                <= hex_text(n)[i] as int <= 102,
    decreases n,
{
    let s = hex_text(n);
    if n < 16 {
        assert(s.drop_last() =~= Seq::<char>::empty());
        assert(read_hex(s.drop_last()) == 0);
    } else {
        hexadecimal_reads_back(n / 16);
        assert(s.drop_last() =~= hex_text(n / 16));
        assert(s[0] == hex_text(n / 16)[0]);
        assert forall|i: int| 0 <= i < s.len() implies 48 <= (#[trigger] s[i]) as int <= 57 || 97
            <= s[i] as int <= 102 by {
            if i < s.len() - 1 {
                assert(s[i] == hex_text(n / 16)[i]);
            }
        }
    }
}

/// Groups are written in hexadecimal, one behind the other, with colons between
/// them.
pub proof fn groups_are_written_in_hexadecimal(g: Seq<u16>, more: u16)
    ensures
        groups_text(Seq::<u16>::empty()) == Seq::<char>::empty(),
        groups_text(seq![more]) == hex_text(more as nat),
        g.len() > 0 ==> groups_text(g.push(more)) == groups_text(g).push(':') + hex_text(
            more as nat,
        ),
{
    let colon = seq![':'];
    assert(group_texts(Seq::<u16>::empty()) =~= Seq::<Seq<char>>::empty());
    assert(group_texts(seq![more]) =~= seq![hex_text(more as nat)]);
    assert(group_texts(g.push(more)) =~= group_texts(g).push(hex_text(more as nat)));
    joining_goes_part_by_part(group_texts(g), hex_text(more as nat), colon);
    if g.len() > 0 {
        assert(groups_text(g) + colon + hex_text(more as nat) =~= groups_text(g).push(':')
            + hex_text(more as nat));
    }
}

/// In a group capital digits count as small ones, and zeros in front do not
/// matter; a group has one to four digits.
pub proof fn groups_are_read_without_regard_to_form(s: Seq<char>)
    ensures
        group_of(ascii_lower_all(s)) == group_of(s),
        1 <= s.len() <= 3 ==> group_of(seq!['0'] + s) == group_of(s),
        s.len() == 0 || s.len() > 4 ==> group_of(s) is None,
{
    let t = ascii_lower_all(s);
    lemma_number_of_small(s);
    if all_digits(s, 16) {
        assert forall|i: int| 0 <= i < t.len() implies digit_value(#[trigger] t[i]) < 16 by {
            assert(digit_value(s[i]) < 16);
        }
    }
    if all_digits(t, 16) {
        assert forall|i: int| 0 <= i < s.len() implies digit_value(#[trigger] s[i]) < 16 by {
            assert(digit_value(t[i]) < 16);
        }
    }
    let z = seq!['0'] + s;
    lemma_number_of_zero_in_front(s);
    if all_digits(s, 16) {
        assert forall|i: int| 0 <= i < z.len() implies digit_value(#[trigger] z[i]) < 16 by {
            if i > 0 {
                assert(digit_value(s[i - 1]) < 16);
            }
        }
    }
    if all_digits(z, 16) {
        assert forall|i: int| 0 <= i < s.len() implies digit_value(#[trigger] s[i]) < 16 by {
            assert(digit_value(z[i + 1]) < 16);
        }
    }
}

proof fn lemma_number_of_small(s: Seq<char>)
    ensures
        number_of(ascii_lower_all(s), 16) == number_of(s, 16),
    decreases s.len(),
{
    if s.len() > 0 {
        lemma_number_of_small(s.drop_last());
        assert(ascii_lower_all(s).drop_last() =~= ascii_lower_all(s.drop_last()));
    }
}

proof fn lemma_number_of_zero_in_front(s: Seq<char>)
    ensures
        number_of(seq!['0'] + s, 16) == number_of(s, 16),
    decreases s.len(),
{
    let z = seq!['0'] + s;
    if s.len() > 0 {
        lemma_number_of_zero_in_front(s.drop_last());
        assert(z.drop_last() =~= seq!['0'] + s.drop_last());
    } else {
        assert(z.drop_last() =~= Seq::<char>::empty());
        assert(number_of(z.drop_last(), 16) == 0);
    }
}

/// The groups from `from` up to `to` are all zero.
pub open spec fn zeros_between(g: Seq<u16>, from: int, to: int) -> bool {
    0 <= from <= to <= g.len() && forall|j: int| from <= j < to ==> g[j] == 0
}

/// In the text of an address the first of the longest runs of zeros, of two at
/// least, is left out: no run is longer, and none of the same length comes
/// before.
pub proof fn longest_run_is_left_out(g: Seq<u16>, from: int, to: int)
    requires
        g.len() == 8,
        !(g[0] == 0 && g[1] == 0 && g[2] == 0 && g[3] == 0 && g[4] == 0 && g[5] == 0xffff),
        zeros_between(g, from, to),
        to - from >= 2,
        forall|i: int, j: int| #[trigger] zeros_between(g, i, j) ==> j - i <= to - from,
        forall|i: int, j: int| #[trigger] zeros_between(g, i, j) && j - i == to - from ==> i
            >= from,
    ensures
        addr_text(AddrModel::V6(g)) == groups_text(g.take(from)) + seq![':', ':'] + groups_text(
            g.skip(to),
        ),
{
    lemma_longest_run(g, 8);
    lemma_longest_is_longest(g, 8);
    let start = longest_run(g, 8);
    lemma_zero_run(g, start);
    let n = zero_run(g, start);
    assert(zeros_between(g, start, start + n));
    lemma_zero_run_reaches(g, from, to);
    assert(zero_run(g, from) <= n);
    assert(n == to - from);
    lemma_zero_run(g, from);
    assert(start >= from);
    if start > from {
        assert(zero_run(g, from) < n);
    }
}

/// Without two zeros in a row all groups are written.
pub proof fn single_zeros_are_written(g: Seq<u16>)
    requires
        g.len() == 8,
        forall|i: int, j: int| #[trigger] zeros_between(g, i, j) ==> j - i < 2,
    ensures
        addr_text(AddrModel::V6(g)) == groups_text(g),
{
    lemma_longest_run(g, 8);
    let start = longest_run(g, 8);
    lemma_zero_run(g, start);
    assert(zeros_between(g, start, start + zero_run(g, start)));
    if is_mapped(g) {
        assert(zeros_between(g, 0, 2));
    }
}

/// A mapped address of version 4 is written with its four bytes.
pub proof fn mapped_addresses_show_their_bytes(g: Seq<u16>, a: u8, b: u8, c: u8, d: u8)
    requires
        g == seq![
            0u16,
            0u16,
            0u16,
            0u16,
            0u16,
            0xffffu16,
            (256 * a + b) as u16,
            (256 * c + d) as u16,
        ],
    ensures
        addr_text(AddrModel::V6(g)) == seq![':', ':', 'f', 'f', 'f', 'f', ':'] + dotted(a, b, c, d),
{
    assert(mapped_octets(g) =~= seq![a, b, c, d]);
    dotted_numbers_are_addresses(Seq::<char>::empty(), a, b, c, d);
}

proof fn lemma_longest_is_longest(g: Seq<u16>, n: nat)
    requires
        n <= g.len(),
    ensures
        n > 0 ==> 0 <= longest_run(g, n) < n,
        forall|i: int|
            0 <= i < n ==> #[trigger] zero_run(g, i) <= zero_run(g, longest_run(g, n)),
        forall|i: int|
            0 <= i < longest_run(g, n) ==> #[trigger] zero_run(g, i) < zero_run(
                g,
                longest_run(g, n),
            ),
    decreases n,
{
    if n > 0 {
        lemma_longest_is_longest(g, (n - 1) as nat);
    }
}

proof fn lemma_zero_run_reaches(g: Seq<u16>, from: int, to: int)
    requires
        zeros_between(g, from, to),
    ensures
        zero_run(g, from) >= to - from,
    decreases to - from,
{
    if from < to {
        lemma_zero_run_reaches(g, from + 1, to);
    } else if from < g.len() {
        lemma_zero_run(g, from);
    } else {
        assert(zero_run(g, from) == 0);
    }
}

} // verus!
