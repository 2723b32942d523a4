//! Text as sequences of characters: trimming, splitting, searching, formatting.

use vstd::prelude::*;

verus! {

/// `String::push` appends one character.
pub assume_specification[ String::push ](s: &mut String, c: char)
    ensures
        final(s)@ == old(s)@.push(c),
;

/// `String::push_str` appends the characters of the given slice.
pub assume_specification[ String::push_str ](s: &mut String, t: &str)
    ensures
        final(s)@ == old(s)@ + t@,
;

/// The characters of each string, in order.
pub open spec fn views(v: Seq<String>) -> Seq<Seq<char>> {
    Seq::new(v.len(), |i: int| v[i]@)
}

/// The characters of an optional string.
pub open spec fn opt_view(o: Option<String>) -> Option<Seq<char>> {
    match o {
        Some(s) => Some(s@),
        None => None,
    }
}

// ---------------------------------------------------------------- whitespace

/// The Unicode `White_Space` property.
pub open spec fn is_whitespace(c: char) -> bool {
    let n = c as int;
    ||| 0x09 <= n <= 0x0d
    ||| n == 0x20
    ||| n == 0x85
    ||| n == 0xa0
    ||| n == 0x1680
    ||| 0x2000 <= n <= 0x200a
    ||| n == 0x2028
    ||| n == 0x2029
    ||| n == 0x202f
    ||| n == 0x205f
    ||| n == 0x3000
}

pub fn whitespace(c: char) -> (r: bool)
    ensures
        r == is_whitespace(c),
{
    let n: u32 = c as u32;
    (0x09 <= n && n <= 0x0d) || n == 0x20 || n == 0x85 || n == 0xa0 || n == 0x1680 || (0x2000 <= n
        && n <= 0x200a) || n == 0x2028 || n == 0x2029 || n == 0x202f || n == 0x205f || n == 0x3000
}

/// `s` without its leading whitespace.
pub open spec fn trim_start(s: Seq<char>) -> Seq<char>
    decreases s.len(),
{
    if s.len() > 0 && is_whitespace(s[0]) {
        trim_start(s.drop_first())
    } else {
        s
    }
}

/// `s` without its trailing whitespace.
pub open spec fn trim_end(s: Seq<char>) -> Seq<char>
    decreases s.len(),
{
    if s.len() > 0 && is_whitespace(s.last()) {
        trim_end(s.drop_last())
    } else {
        s
    }
}

/// `s` without leading and trailing whitespace.
pub open spec fn trimmed(s: Seq<char>) -> Seq<char> {
    trim_end(trim_start(s))
}

// ---------------------------------------------------------------- conversion

/// The characters of `s`.
pub fn chars_of(s: &str) -> (r: Vec<char>)
    ensures
        r@ == s@,
{
    let mut v: Vec<char> = Vec::new();
    for c in it: s.chars()
        invariant
            v@ == s@.take(it.index() as int),
            it.seq() == s@,
    {
        v.push(c);
    }
    v
}

/// Appends the characters of `v` to `s`.
pub fn push_chars(s: &mut String, v: &[char])
    ensures
        final(s)@ == old(s)@ + v@,
{
    let ghost start = s@;
    for i in 0..v.len()
        invariant
            s@ == start + v@.take(i as int),
    {
        s.push(v[i]);
        assert(v@.take(i + 1) == v@.take(i as int).push(v@[i as int]));
    }
    assert(v@.take(v@.len() as int) == v@);
}

/// The string made of the characters of `v`.
pub fn string_of(v: &[char]) -> (r: String)
    ensures
        r@ == v@,
{
    let mut s = String::new();
    push_chars(&mut s, v);
    s
}

/// The characters of `v` from `from` up to `to`.
pub fn slice_of(v: &[char], from: usize, to: usize) -> (r: Vec<char>)
    requires
        from <= to <= v@.len(),
    ensures
        r@ == v@.subrange(from as int, to as int),
{
    let mut out: Vec<char> = Vec::new();
    for i in from..to
        invariant
            from <= to <= v@.len(),
            out@ == v@.subrange(from as int, i as int),
    {
        out.push(v[i]);
    }
    out
}

// ---------------------------------------------------------------- comparison

/// Whether two character slices hold the same characters.
pub fn same_chars(a: &[char], b: &[char]) -> (r: bool)
    ensures
        r == (a@ == b@),
{
    if a.len() != b.len() {
        return false;
    }
    for i in 0..a.len()
        invariant
            a@.len() == b@.len(),
            a@.take(i as int) == b@.take(i as int),
    {
        if a[i] != b[i] {
            assert(a@[i as int] != b@[i as int]);
            return false;
        }
        assert(a@.take(i + 1) == a@.take(i as int).push(a@[i as int]));
        assert(b@.take(i + 1) == b@.take(i as int).push(b@[i as int]));
    }
    assert(a@.take(a@.len() as int) == a@);
    assert(b@.take(b@.len() as int) == b@);
    true
}

/// Whether two strings hold the same characters.
pub fn same_text(a: &str, b: &str) -> (r: bool)
    ensures
        r == (a@ == b@),
{
    let va = chars_of(a);
    let vb = chars_of(b);
    same_chars(&va, &vb)
}

/// Whether `list` holds the text `s`.
pub fn list_contains(list: &Vec<String>, s: &str) -> (r: bool)
    ensures
        r == views(list@).contains(s@),
{
    for i in 0..list.len()
        invariant
            forall|j: int| 0 <= j < i ==> views(list@)[j] != s@,
    {
        if same_text(list[i].as_str(), s) {
            assert(views(list@)[i as int] == s@);
            return true;
        }
    }
    false
}

// ---------------------------------------------------------------- trimming

proof fn lemma_trim_start_skip(s: Seq<char>, i: int)
    requires
        0 <= i <= s.len(),
        forall|j: int| 0 <= j < i ==> is_whitespace(#[trigger] s[j]),
    ensures
        trim_start(s) == trim_start(s.skip(i)),
    decreases i,
{
    if i > 0 {
        let t = s.drop_first();
        assert forall|j: int| 0 <= j < i - 1 implies is_whitespace(#[trigger] t[j]) by {
            assert(t[j] == s[j + 1]);
        }
        assert(is_whitespace(s[0]));
        lemma_trim_start_skip(t, i - 1);
        assert(t.skip(i - 1) == s.skip(i));
    } else {
        assert(s.skip(0) == s);
    }
}

proof fn lemma_trim_end_take(s: Seq<char>, i: int)
    requires
        0 <= i <= s.len(),
        forall|j: int| i <= j < s.len() ==> is_whitespace(#[trigger] s[j]),
    ensures
        trim_end(s) == trim_end(s.take(i)),
    decreases s.len() - i,
{
    if i < s.len() {
        let t = s.drop_last();
        assert(is_whitespace(s[s.len() - 1]));
        assert forall|j: int| i <= j < t.len() implies is_whitespace(#[trigger] t[j]) by {
            assert(t[j] == s[j]);
        }
        lemma_trim_end_take(t, i);
        assert(t.take(i) == s.take(i));
    } else {
        assert(s.take(i) == s);
    }
}

/// The characters of `v` without leading and trailing whitespace.
pub fn trim_chars(v: &[char]) -> (r: Vec<char>)
    ensures
        r@ == trimmed(v@),
{
    let mut from: usize = 0;
    while from < v.len() && whitespace(v[from])
        invariant
            from <= v@.len(),
            forall|j: int| 0 <= j < from ==> is_whitespace(#[trigger] v@[j]),
        decreases v@.len() - from,
    {
        from = from + 1;
    }
    let mut to: usize = v.len();
    while to > from && whitespace(v[to - 1])
        invariant
            from <= to <= v@.len(),
            forall|j: int| to <= j < v@.len() ==> is_whitespace(#[trigger] v@[j]),
        decreases to,
    {
        to = to - 1;
    }
    proof {
        let rest = v@.skip(from as int);
        lemma_trim_start_skip(v@, from as int);
        assert(trim_start(rest) == rest);
        assert forall|j: int| to - from <= j < rest.len() implies is_whitespace(
            #[trigger] rest[j],
        ) by {
            assert(rest[j] == v@[j + from]);
        }
        lemma_trim_end_take(rest, to - from);
        let kept = rest.take(to - from);
        assert(kept == v@.subrange(from as int, to as int));
        assert(trim_end(kept) == kept) by {
            if to > from {
                assert(kept.last() == v@[to - 1]);
            }
        }
    }
    slice_of(v, from, to)
}

/// `s` without leading and trailing whitespace.
pub fn trim_text(s: &str) -> (r: String)
    ensures
        r@ == trimmed(s@),
{
    let v = chars_of(s);
    let t = trim_chars(&v);
    string_of(&t)
}

/// Trimming an already trimmed text changes nothing.
pub proof fn lemma_trim_is_idempotent(s: Seq<char>)
    ensures
        trimmed(trimmed(s)) == trimmed(s),
{
    let a = trim_start(s);
    lemma_trim_start_done(s);
    let b = trim_end(a);
    lemma_trim_end_done(a);
    assert(b.len() > 0 ==> !is_whitespace(b[0]));
}

proof fn lemma_trim_start_done(s: Seq<char>)
    ensures
        trim_start(s).len() > 0 ==> !is_whitespace(trim_start(s)[0]),
    decreases s.len(),
{
    if s.len() > 0 && is_whitespace(s[0]) {
        lemma_trim_start_done(s.drop_first());
    }
}

proof fn lemma_trim_end_done(s: Seq<char>)
    ensures
        trim_end(s).len() <= s.len(),
        trim_end(s) == s.take(trim_end(s).len() as int),
        trim_end(s).len() > 0 ==> !is_whitespace(trim_end(s).last()),
    decreases s.len(),
{
    if s.len() > 0 && is_whitespace(s.last()) {
        let t = s.drop_last();
        lemma_trim_end_done(t);
        assert(t.take(trim_end(t).len() as int) == s.take(trim_end(t).len() as int));
    } else {
        assert(s.take(s.len() as int) == s);
    }
}

// ---------------------------------------------------------------- splitting

/// The pieces of `s` between separators; always at least one piece.
pub open spec fn split(s: Seq<char>, sep: spec_fn(char) -> bool) -> Seq<Seq<char>>
    decreases s.len(),
{
    if s.len() == 0 {
        seq![Seq::<char>::empty()]
    } else {
        let head = split(s.drop_last(), sep);
        if sep(s.last()) {
            head.push(Seq::<char>::empty())
        } else {
            head.drop_last().push(head.last().push(s.last()))
        }
    }
}

pub proof fn lemma_split_nonempty(s: Seq<char>, sep: spec_fn(char) -> bool)
    ensures
        split(s, sep).len() >= 1,
    decreases s.len(),
{
    if s.len() > 0 {
        lemma_split_nonempty(s.drop_last(), sep);
    }
}

/// Views of nested character vectors.
pub open spec fn char_views(v: Seq<Vec<char>>) -> Seq<Seq<char>> {
    Seq::new(v.len(), |i: int| v[i]@)
}

/// The pieces of `v` between occurrences of `sep`.
pub fn split_at_char(v: &[char], sep: char) -> (r: Vec<Vec<char>>)
    ensures
        char_views(r@) == split(v@, |c: char| c == sep),
{
    let ghost f = |c: char| c == sep;
    let mut done: Vec<Vec<char>> = Vec::new();
    let mut cur: Vec<char> = Vec::new();
    for i in 0..v.len()
        invariant
            f == |c: char| c == sep,
            char_views(done@).push(cur@) == split(v@.take(i as int), f),
    {
        let ghost before = char_views(done@).push(cur@);
        proof {
            assert(v@.take(i + 1).drop_last() == v@.take(i as int));
            assert(v@.take(i + 1).last() == v@[i as int]);
            assert(before.drop_last() == char_views(done@));
            assert(before.last() == cur@);
        }
        if v[i] == sep {
            done.push(cur);
            cur = Vec::new();
            assert(char_views(done@) == before);
        } else {
            cur.push(v[i]);
        }
    }
    assert(v@.take(v@.len() as int) == v@);
    done.push(cur);
    done
}

pub open spec fn strip_cr(s: Seq<char>) -> Seq<char> {
    if s.len() > 0 && s.last() == '\r' {
        s.drop_last()
    } else {
        s
    }
}

/// The lines of `s`: each ends at `\n` or `\r\n`, and the last needs no end.
pub open spec fn lines(s: Seq<char>) -> Seq<Seq<char>> {
    let parts = split(s, |c: char| c == '\n');
    let ended = Seq::new((parts.len() - 1) as nat, |i: int| strip_cr(parts[i]));
    if parts.last().len() == 0 {
        ended
    } else {
        ended.push(parts.last())
    }
}

/// The lines of `v`.
pub fn lines_of(v: &[char]) -> (r: Vec<Vec<char>>)
    ensures
        char_views(r@) == lines(v@),
{
    let parts = split_at_char(v, '\n');
    proof {
        lemma_split_nonempty(v@, |c: char| c == '\n');
        assert(char_views(parts@).len() == parts@.len());
    }
    let mut out: Vec<Vec<char>> = Vec::new();
    let n: usize = parts.len();
    for i in 0..(n - 1) as usize
        invariant
            n == parts@.len(),
            n >= 1,
            out@.len() == i,
            forall|j: int| 0 <= j < i ==> #[trigger] out@[j]@ == strip_cr(parts@[j]@),
    {
        let part: &Vec<char> = &parts[i];
        let len: usize = part.len();
        let line = if len > 0 && part[len - 1] == '\r' {
            let l = slice_of(part, 0, len - 1);
            assert(l@ == part@.drop_last());
            l
        } else {
            let l = slice_of(part, 0, len);
            assert(l@ == part@);
            l
        };
        out.push(line);
    }
    let last: &Vec<char> = &parts[n - 1];
    assert(char_views(parts@).last() == last@);
    if last.len() > 0 {
        let l = slice_of(last, 0, last.len());
        assert(l@ == last@);
        out.push(l);
    }
    assert(char_views(out@) == lines(v@));
    out
}

// ---------------------------------------------------------------- searching

/// Whether `sub` stands in `s` at position `i`.
pub open spec fn occurs_at(s: Seq<char>, sub: Seq<char>, i: int) -> bool {
    &&& 0 <= i
    &&& i + sub.len() <= s.len()
    &&& s.subrange(i, i + sub.len()) == sub
}

/// Whether `sub` stands somewhere in `s`.
pub open spec fn contains_text(s: Seq<char>, sub: Seq<char>) -> bool {
    exists|i: int| occurs_at(s, sub, i)
}

/// Whether `sub` stands in `v` at position `at`.
pub fn stands_at(v: &[char], sub: &[char], at: usize) -> (r: bool)
    ensures
        r == occurs_at(v@, sub@, at as int),
{
    if at > v.len() || v.len() - at < sub.len() {
        return false;
    }
    let n: usize = v.len();
    for k in 0..sub.len()
        invariant
            n == v@.len(),
            at + sub@.len() <= n,
            forall|j: int| 0 <= j < k ==> v@[at + j] == sub@[j],
    {
        if v[at + k] != sub[k] {
            assert(v@.subrange(at as int, at + sub@.len())[k as int] != sub@[k as int]);
            return false;
        }
    }
    assert(v@.subrange(at as int, at + sub@.len()) == sub@);
    true
}

/// Whether `sub` stands somewhere in `v`.
pub fn has_chars(v: &[char], sub: &[char]) -> (r: bool)
    ensures
        r == contains_text(v@, sub@),
{
    let mut i: usize = 0;
    while i < v.len()
        invariant
            i <= v@.len(),
            forall|j: int| 0 <= j < i ==> !occurs_at(v@, sub@, j),
        decreases v@.len() - i,
    {
        if stands_at(v, sub, i) {
            return true;
        }
        i = i + 1;
    }
    stands_at(v, sub, i)
}

/// Whether `sub` stands somewhere in `s`.
pub fn has_text(s: &str, sub: &str) -> (r: bool)
    ensures
        r == contains_text(s@, sub@),
{
    let v = chars_of(s);
    let w = chars_of(sub);
    has_chars(&v, &w)
}

// ---------------------------------------------------------------- ASCII case

/// `c` with an ASCII capital made small.
pub open spec fn ascii_lower(c: char) -> char {
    if 'A' as int <= c as int && c as int <= 'Z' as int {
        (c as int + 32) as char
    } else {
        c
    }
}

pub open spec fn ascii_lower_all(s: Seq<char>) -> Seq<char> {
    Seq::new(s.len(), |i: int| ascii_lower(s[i]))
}

pub fn lower_char(c: char) -> (r: char)
    ensures
        r == ascii_lower(c),
{
    if 'A' <= c && c <= 'Z' {
        let n: u8 = c as u8;
        (n + 32) as char
    } else {
        c
    }
}

/// `v` with ASCII capitals made small.
pub fn lower_chars(v: &[char]) -> (r: Vec<char>)
    ensures
        r@ == ascii_lower_all(v@),
{
    let mut out: Vec<char> = Vec::new();
    for i in 0..v.len()
        invariant
            out@ == ascii_lower_all(v@.take(i as int)),
    {
        out.push(lower_char(v[i]));
        assert(ascii_lower_all(v@.take(i + 1)) == ascii_lower_all(v@.take(i as int)).push(
            ascii_lower(v@[i as int]),
        ));
    }
    assert(v@.take(v@.len() as int) == v@);
    out
}

// ---------------------------------------------------------------- joining

/// The parts one after the other with `sep` between them.
pub open spec fn join(parts: Seq<Seq<char>>, sep: Seq<char>) -> Seq<char>
    decreases parts.len(),
{
    if parts.len() == 0 {
        Seq::empty()
    } else if parts.len() == 1 {
        parts[0]
    } else {
        join(parts.drop_last(), sep) + sep + parts.last()
    }
}

/// The strings of `parts` one after the other with `sep` between them.
pub fn join_strings(parts: &Vec<String>, sep: &str) -> (r: String)
    ensures
        r@ == join(views(parts@), sep@),
{
    let mut s = String::new();
    let ghost all = views(parts@);
    for i in 0..parts.len()
        invariant
            all == views(parts@),
            s@ == join(all.take(i as int), sep@),
    {
        proof {
            let next = all.take(i + 1);
            assert(next.drop_last() == all.take(i as int));
            assert(next.last() == parts@[i as int]@);
        }
        if i > 0 {
            s.push_str(sep);
        }
        s.push_str(parts[i].as_str());
        assert(s@ == join(all.take(i + 1), sep@));
    }
    assert(all.take(all.len() as int) == all);
    s
}

// ---------------------------------------------------------------- numbers

/// The decimal digits of `n`, without leading zeros.
pub open spec fn decimal(n: nat) -> Seq<char>
    decreases n,
{
    if n < 10 {
        seq![(48 + n) as char]
    } else {
        decimal(n / 10).push((48 + n % 10) as char)
    }
}

/// A small hexadecimal digit.
pub open spec fn hex_digit(d: nat) -> char {
    if d < 10 {
        (48 + d) as char
    } else {
        (87 + d) as char
    }
}

/// `n` in decimal, with a sign where it is negative.
pub open spec fn signed_decimal(n: int) -> Seq<char> {
    if n < 0 {
        seq!['-'] + decimal((-n) as nat)
    } else {
        decimal(n as nat)
    }
}

/// Appends `n` in decimal to `s`.
pub fn push_decimal(s: &mut String, n: u128)
    ensures
        final(s)@ == old(s)@ + decimal(n as nat),
    decreases n,
{
    if n >= 10 {
        push_decimal(s, n / 10);
    }
    let d: u8 = (n % 10) as u8;
    s.push((48 + d) as char);
    assert(s@ == old(s)@ + decimal(n as nat));
}

/// Appends `n` in decimal to `s`, with a sign where it is negative.
pub fn push_signed(s: &mut String, n: i64)
    ensures
        final(s)@ == old(s)@ + signed_decimal(n as int),
{
    if n < 0 {
        s.push('-');
        let m: i128 = -(n as i128);
        push_decimal(s, m as u128);
    } else {
        push_decimal(s, n as u128);
    }
    assert(s@ == old(s)@ + signed_decimal(n as int));
}

/// `prefix`, the number `n` in decimal, then `suffix`.
pub fn number_text(prefix: &str, n: u128, suffix: &str) -> (r: String)
    ensures
        r@ == prefix@ + decimal(n as nat) + suffix@,
{
    let mut s = prefix.to_owned();
    push_decimal(&mut s, n);
    s.push_str(suffix);
    s
}

// ---------------------------------------------------------------- order of texts

/// Whether `a` comes before `b` character by character.
pub open spec fn text_before(a: Seq<char>, b: Seq<char>) -> bool
    decreases a.len(),
{
    if b.len() == 0 {
        false
    } else if a.len() == 0 {
        true
    } else if a[0] != b[0] {
        (a[0] as int) < (b[0] as int)
    } else {
        text_before(a.drop_first(), b.drop_first())
    }
}

/// Of two texts one comes first, unless they are the same.
pub proof fn lemma_text_order_total(a: Seq<char>, b: Seq<char>)
    ensures
        !text_before(a, a),
        a != b ==> text_before(a, b) || text_before(b, a),
    decreases a.len(),
{
    if a.len() > 0 {
        if b.len() > 0 && a[0] == b[0] {
            lemma_text_order_total(a.drop_first(), b.drop_first());
            if a.drop_first() == b.drop_first() {
                assert(a == seq![a[0]] + a.drop_first());
                assert(b == seq![b[0]] + b.drop_first());
            }
        } else {
            lemma_text_order_total(a.drop_first(), a.drop_first());
        }
    } else if b.len() == 0 {
        assert(a == b);
    }
}

pub proof fn lemma_text_order_transitive(a: Seq<char>, b: Seq<char>, c: Seq<char>)
    requires
        text_before(a, b),
        text_before(b, c),
    ensures
        text_before(a, c),
    decreases a.len(),
{
    if a.len() > 0 && b.len() > 0 && c.len() > 0 && a[0] == b[0] && b[0] == c[0] {
        lemma_text_order_transitive(a.drop_first(), b.drop_first(), c.drop_first());
    }
}

/// Whether `a` comes before `b` character by character.
pub fn text_precedes(a: &str, b: &str) -> (r: bool)
    ensures
        r == text_before(a@, b@),
{
    let va = chars_of(a);
    let vb = chars_of(b);
    assert(a@.skip(0) == a@ && b@.skip(0) == b@);
    let mut k: usize = 0;
    while k < va.len() && k < vb.len() && va[k] == vb[k]
        invariant
            va@ == a@,
            vb@ == b@,
            k <= va@.len(),
            k <= vb@.len(),
            text_before(a@, b@) == text_before(a@.skip(k as int), b@.skip(k as int)),
        decreases va@.len() - k,
    {
        proof {
            assert(a@.skip(k as int).drop_first() == a@.skip(k + 1));
            assert(b@.skip(k as int).drop_first() == b@.skip(k + 1));
        }
        k = k + 1;
    }
    proof {
        assert(k < va@.len() ==> a@.skip(k as int)[0] == va@[k as int]);
        assert(k < vb@.len() ==> b@.skip(k as int)[0] == vb@[k as int]);
    }
    if k == vb.len() {
        false
    } else if k == va.len() {
        true
    } else {
        va[k] < vb[k]
    }
}

// ---------------------------------------------------------------- joining and splitting

pub proof fn lemma_split_append(a: Seq<char>, b: Seq<char>, sep: spec_fn(char) -> bool)
    requires
        forall|i: int| 0 <= i < b.len() ==> !sep(#[trigger] b[i]),
    ensures
        split(a + b, sep) == split(a, sep).drop_last().push(split(a, sep).last() + b),
    decreases b.len(),
{
    lemma_split_nonempty(a, sep);
    let whole = split(a, sep);
    if b.len() == 0 {
        assert(a + b == a);
        assert(whole.last() + b == whole.last());
        assert(whole == whole.drop_last().push(whole.last()));
    } else {
        let init = b.drop_last();
        assert forall|i: int| 0 <= i < init.len() implies !sep(#[trigger] init[i]) by {
            assert(init[i] == b[i]);
        }
        lemma_split_append(a, init, sep);
        assert((a + b).drop_last() == a + init);
        assert(!sep(b[b.len() - 1]));
        assert((whole.last() + init).push(b.last()) == whole.last() + b);
        let head = split(a + init, sep);
        assert(head.drop_last() == whole.drop_last());
    }
}

/// Texts without separators come back from their joined form, `c` being one of
/// the separators.
pub proof fn split_undoes_join_where(
    parts: Seq<Seq<char>>,
    c: char,
    sep: spec_fn(char) -> bool,
)
    requires
        parts.len() > 0,
        sep(c),
        forall|i: int, j: int|
            0 <= i < parts.len() && 0 <= j < parts[i].len() ==> !sep(#[trigger] parts[i][j]),
    ensures
        split(join(parts, seq![c]), sep) == parts,
    decreases parts.len(),
{
    let last = parts.last();
    assert forall|i: int| 0 <= i < last.len() implies !sep(#[trigger] last[i]) by {
        assert(!sep(parts[parts.len() - 1][i]));
    }
    if parts.len() == 1 {
        lemma_split_append(Seq::empty(), last, sep);
        assert(Seq::<char>::empty() + last == last);
        assert(split(Seq::<char>::empty(), sep) == seq![Seq::<char>::empty()]);
        assert(split(last, sep) == parts);
    } else {
        let init = parts.drop_last();
        assert forall|i: int, j: int|
            0 <= i < init.len() && 0 <= j < init[i].len() implies !sep(#[trigger] init[i][j]) by {
            assert(!sep(parts[i][j]));
        }
        split_undoes_join_where(init, c, sep);
        let head = join(init, seq![c]);
        assert(head + seq![c] == head.push(c));
        assert(head.push(c).drop_last() == head);
        assert(split(head.push(c), sep) == init.push(Seq::<char>::empty()));
        lemma_split_append(head.push(c), last, sep);
        assert(join(parts, seq![c]) == head.push(c) + last);
        assert(init.push(Seq::<char>::empty()).drop_last() == init);
        assert(Seq::<char>::empty() + last == last);
        assert(init.push(last) == parts);
    }
}

/// Texts without the separator come back from their joined form.
pub proof fn split_undoes_join(parts: Seq<Seq<char>>, c: char)
    requires
        parts.len() > 0,
        forall|i: int| 0 <= i < parts.len() ==> !(#[trigger] parts[i]).contains(c),
    ensures
        split(join(parts, seq![c]), |x: char| x == c) == parts,
{
    let sep = |x: char| x == c;
    assert forall|i: int, j: int| 0 <= i < parts.len() && 0 <= j < parts[i].len() implies !sep(
        #[trigger] parts[i][j],
    ) by {
        assert(!parts[i].contains(c));
        assert(parts[i].contains(parts[i][j]));
    }
    split_undoes_join_where(parts, c, sep);
}

} // verus!
