//! What always holds of texts: blanks, lines, pieces and numbers.

use crate::order::survivors;
use crate::text::{
    ascii_lower, ascii_lower_all, contains_text, decimal, is_whitespace, join, lemma_split_append,
    lemma_split_nonempty, lines, occurs_at, signed_decimal, split, strip_cr, text_before, trim_end,
    trim_start, trimmed,
};
use vstd::prelude::*;

verus! {

// ---------------------------------------------------------------- blanks

/// A blank: a tab, a line or page break, or a space of any width.
pub open spec fn blank(c: char) -> bool {
    let n = c as int;
    seq![
        0x09int,
        0x0a,
        0x0b,
        0x0c,
        0x0d,
        0x20,
        0x85,
        0xa0,
        0x1680,
        0x2000,
        0x2001,
        0x2002,
        0x2003,
        0x2004,
        0x2005,
        0x2006,
        0x2007,
        0x2008,
        0x2009,
        0x200a,
        0x2028,
        0x2029,
        0x202f,
        0x205f,
        0x3000,
    ].contains(n)
}

/// Nothing but blanks.
pub open spec fn all_blank(s: Seq<char>) -> bool {
    forall|i: int| 0 <= i < s.len() ==> blank(#[trigger] s[i])
}

/// Something that neither starts nor ends with a blank.
pub open spec fn solid(s: Seq<char>) -> bool {
    s.len() > 0 && !blank(s[0]) && !blank(s.last())
}

/// Whitespace is exactly what is blank.
pub proof fn whitespace_is_blank(c: char)
    ensures
        is_whitespace(c) <==> blank(c),
{
    let n = c as int;
    let all = seq![
        0x09int,
        0x0a,
        0x0b,
        0x0c,
        0x0d,
        0x20,
        0x85,
        0xa0,
        0x1680,
        0x2000,
        0x2001,
        0x2002,
        0x2003,
        0x2004,
        0x2005,
        0x2006,
        0x2007,
        0x2008,
        0x2009,
        0x200a,
        0x2028,
        0x2029,
        0x202f,
        0x205f,
        0x3000,
    ];
    if is_whitespace(c) {
        let k: int = if n <= 0x0d {
            n - 9
        } else if n == 0x20 {
            5
        } else if n == 0x85 {
            6
        } else if n == 0xa0 {
            7
        } else if n == 0x1680 {
            8
        } else if n <= 0x200a {
            n - 0x2000 + 9
        } else if n == 0x2028 {
            20
        } else if n == 0x2029 {
            21
        } else if n == 0x202f {
            22
        } else if n == 0x205f {
            23
        } else {
            24
        };
        assert(all[k] == n);
    }
}

proof fn lemma_trim_start_blanks(a: Seq<char>, s: Seq<char>)
    requires
        all_blank(a),
        s.len() > 0 ==> !blank(s[0]),
    ensures
        trim_start(a + s) == s,
    decreases a.len(),
{
    let t = a + s;
    if a.len() == 0 {
        assert(t =~= s);
        if s.len() > 0 {
            whitespace_is_blank(s[0]);
        }
    } else {
        whitespace_is_blank(a[0]);
        assert(t[0] == a[0]);
        assert(t.drop_first() =~= a.drop_first() + s);
        assert forall|i: int| 0 <= i < a.drop_first().len() implies blank(
            #[trigger] a.drop_first()[i],
        ) by {
            assert(a.drop_first()[i] == a[i + 1]);
        }
        lemma_trim_start_blanks(a.drop_first(), s);
    }
}

proof fn lemma_trim_end_blanks(s: Seq<char>, b: Seq<char>)
    requires
        all_blank(b),
        s.len() > 0 ==> !blank(s.last()),
    ensures
        trim_end(s + b) == s,
    decreases b.len(),
{
    let t = s + b;
    if b.len() == 0 {
        assert(t =~= s);
        if s.len() > 0 {
            whitespace_is_blank(s.last());
        }
    } else {
        whitespace_is_blank(b.last());
        assert(t.last() == b.last());
        assert(t.drop_last() =~= s + b.drop_last());
        assert forall|i: int| 0 <= i < b.drop_last().len() implies blank(
            #[trigger] b.drop_last()[i],
        ) by {
            assert(b.drop_last()[i] == b[i]);
        }
        lemma_trim_end_blanks(s, b.drop_last());
    }
}

/// Trimming takes the blanks away that stand around what is written, and
/// nothing else.
pub proof fn trimming_removes_the_blanks_around(a: Seq<char>, core: Seq<char>, b: Seq<char>)
    requires
        all_blank(a),
        all_blank(b),
        core.len() > 0 ==> solid(core),
    ensures
        trimmed(a + core + b) == core,
{
    if core.len() == 0 {
        let t = a + core + b;
        assert(all_blank(t)) by {
            assert forall|i: int| 0 <= i < t.len() implies blank(#[trigger] t[i]) by {
                if i < a.len() {
                    assert(t[i] == a[i]);
                } else {
                    assert(t[i] == b[i - a.len()]);
                }
            }
        }
        assert(t + core =~= t);
        lemma_trim_start_blanks(t, core);
        assert(core =~= Seq::<char>::empty());
        assert(trim_end(core) == core);
    } else {
        assert(a + core + b =~= a + (core + b));
        assert((core + b)[0] == core[0]);
        lemma_trim_start_blanks(a, core + b);
        lemma_trim_end_blanks(core, b);
    }
}

/// Every text is blanks, what is left of it by trimming, and blanks; and what is
/// left neither starts nor ends with a blank.
pub proof fn trimming_leaves_what_is_written(s: Seq<char>) -> (r: (Seq<char>, Seq<char>))
    ensures
        s == r.0 + trimmed(s) + r.1,
        all_blank(r.0),
        all_blank(r.1),
        trimmed(s).len() > 0 ==> solid(trimmed(s)),
{
    let t = trim_start(s);
    let a = lemma_start_taken(s);
    let b = lemma_end_taken(t);
    let core = trim_end(t);
    assert(s =~= a + core + b);
    if core.len() > 0 {
        assert(core[0] == t[0]);
    }
    (a, b)
}

proof fn lemma_start_taken(s: Seq<char>) -> (a: Seq<char>)
    ensures
        s == a + trim_start(s),
        all_blank(a),
        trim_start(s).len() > 0 ==> !blank(trim_start(s)[0]),
    decreases s.len(),
{
    if s.len() > 0 && is_whitespace(s[0]) {
        let rest = s.drop_first();
        let a = lemma_start_taken(rest);
        let all = seq![s[0]] + a;
        whitespace_is_blank(s[0]);
        assert forall|i: int| 0 <= i < all.len() implies blank(#[trigger] all[i]) by {
            if i > 0 {
                assert(all[i] == a[i - 1]);
            }
        }
        assert(s =~= seq![s[0]] + rest);
        assert(seq![s[0]] + (a + trim_start(rest)) =~= all + trim_start(rest));
        all
    } else {
        if s.len() > 0 {
            whitespace_is_blank(s[0]);
        }
        assert(s =~= Seq::<char>::empty() + s);
        Seq::empty()
    }
}

proof fn lemma_end_taken(s: Seq<char>) -> (b: Seq<char>)
    ensures
        s == trim_end(s) + b,
        all_blank(b),
        trim_end(s).len() > 0 ==> !blank(trim_end(s).last()),
    decreases s.len(),
{
    if s.len() > 0 && is_whitespace(s.last()) {
        let rest = s.drop_last();
        let b = lemma_end_taken(rest);
        let all = b.push(s.last());
        whitespace_is_blank(s.last());
        assert forall|i: int| 0 <= i < all.len() implies blank(#[trigger] all[i]) by {
            if i < b.len() {
                assert(all[i] == b[i]);
            }
        }
        assert(s =~= rest.push(s.last()));
        assert((trim_end(rest) + b).push(s.last()) =~= trim_end(rest) + all);
        all
    } else {
        if s.len() > 0 {
            whitespace_is_blank(s.last());
        }
        assert(s =~= s + Seq::<char>::empty());
        Seq::empty()
    }
}

/// A text is trimmed to nothing exactly where it holds nothing but blanks.
pub proof fn only_blanks_are_trimmed_to_nothing(s: Seq<char>)
    ensures
        trimmed(s).len() == 0 <==> all_blank(s),
        trimmed(s).len() > 0 <==> exists|i: int| 0 <= i < s.len() && !blank(#[trigger] s[i]),
{
    let (a, b) = trimming_leaves_what_is_written(s);
    let core = trimmed(s);
    if core.len() > 0 {
        assert(s[a.len() as int] == core[0]);
    } else {
        assert forall|i: int| 0 <= i < s.len() implies blank(#[trigger] s[i]) by {
            if i < a.len() {
                assert(s[i] == a[i]);
            } else {
                assert(s[i] == b[i - a.len()]);
            }
        }
    }
}

// ---------------------------------------------------------------- letters and parts

/// The same letter, ASCII capitals and small letters counting as one.
pub open spec fn same_letter(a: char, b: char) -> bool {
    ||| a == b
    ||| 65 <= a as int <= 90 && b as int == a as int + 32
    ||| 65 <= b as int <= 90 && a as int == b as int + 32
}

/// `part` stands somewhere in `text`, without regard to ASCII case.
pub open spec fn stands_in(text: Seq<char>, part: Seq<char>) -> bool {
    exists|p: int| #[trigger] stands_behind(text, part, p)
}

/// `part` stands in `text` behind its first `p` characters.
pub open spec fn stands_behind(text: Seq<char>, part: Seq<char>, p: int) -> bool {
    &&& 0 <= p
    &&& p + part.len() <= text.len()
    &&& forall|q: int| 0 <= q < part.len() ==> same_letter(#[trigger] text[p + q], part[q])
}

/// `part` stands somewhere in `text`, letter by letter.
pub open spec fn written_in(text: Seq<char>, part: Seq<char>) -> bool {
    exists|p: int| #[trigger] written_behind(text, part, p)
}

/// `part` stands in `text` behind its first `p` characters, letter by letter.
pub open spec fn written_behind(text: Seq<char>, part: Seq<char>, p: int) -> bool {
    &&& 0 <= p
    &&& p + part.len() <= text.len()
    &&& forall|q: int| 0 <= q < part.len() ==> #[trigger] text[p + q] == part[q]
}

/// Two letters have the same small form exactly where they are the same letter.
pub proof fn small_letters_tell_letters_apart(a: char, b: char)
    ensures
        ascii_lower(a) == ascii_lower(b) <==> same_letter(a, b),
{
}

/// A text holds a part exactly where it is written in it.
pub proof fn texts_hold_what_is_written_in_them(text: Seq<char>, part: Seq<char>)
    ensures
        contains_text(text, part) <==> written_in(text, part),
{
    if contains_text(text, part) {
        let i = choose|i: int| occurs_at(text, part, i);
        assert forall|q: int| 0 <= q < part.len() implies #[trigger] text[i + q] == part[q] by {
            assert(text.subrange(i, i + part.len())[q] == text[i + q]);
        }
        assert(written_behind(text, part, i));
    }
    if written_in(text, part) {
        let p = choose|p: int| #[trigger] written_behind(text, part, p);
        let sub = text.subrange(p, p + part.len());
        assert forall|q: int| 0 <= q < part.len() implies sub[q] == part[q] by {
            assert(text[p + q] == part[q]);
        }
        assert(sub =~= part);
        assert(occurs_at(text, part, p));
    }
}

/// In small letters a text holds a part exactly where the part stands in it
/// without regard to ASCII case.
pub proof fn case_does_not_matter(text: Seq<char>, part: Seq<char>)
    ensures
        contains_text(ascii_lower_all(text), ascii_lower_all(part)) <==> stands_in(text, part),
{
    let t = ascii_lower_all(text);
    let s = ascii_lower_all(part);
    texts_hold_what_is_written_in_them(t, s);
    if written_in(t, s) {
        let p = choose|p: int| #[trigger] written_behind(t, s, p);
        assert forall|q: int| 0 <= q < part.len() implies same_letter(
            #[trigger] text[p + q],
            part[q],
        ) by {
            assert(t[p + q] == s[q]);
            small_letters_tell_letters_apart(text[p + q], part[q]);
        }
        assert(stands_behind(text, part, p));
    }
    if stands_in(text, part) {
        let p = choose|p: int| #[trigger] stands_behind(text, part, p);
        assert forall|q: int| 0 <= q < s.len() implies #[trigger] t[p + q] == s[q] by {
            assert(same_letter(text[p + q], part[q]));
            small_letters_tell_letters_apart(text[p + q], part[q]);
        }
        assert(written_behind(t, s, p));
    }
}

/// Texts come in the order of their first difference: what they have in common
/// at the start does not matter, the smaller character comes first, and a text
/// comes before what goes on behind it.
pub proof fn first_difference_decides(common: Seq<char>, a: Seq<char>, b: Seq<char>)
    requires
        a.len() > 0 && b.len() > 0 ==> a[0] != b[0],
    ensures
        text_before(common + a, common + b) <==> b.len() > 0 && (a.len() == 0 || (a[0] as int) < (
        b[0] as int)),
    decreases common.len(),
{
    let x = common + a;
    let y = common + b;
    if common.len() == 0 {
        assert(x =~= a);
        assert(y =~= b);
    } else {
        let rest = common.drop_first();
        assert(x[0] == common[0] && y[0] == common[0]);
        assert(x.drop_first() =~= rest + a);
        assert(y.drop_first() =~= rest + b);
        first_difference_decides(rest, a, b);
    }
}

// ---------------------------------------------------------------- pieces and lines

/// The pieces of a text hold no separator, and put together again with what
/// parted them they are the text.
pub proof fn pieces_make_up_the_text(s: Seq<char>, c: char)
    ensures
        join(split(s, |x: char| x == c), seq![c]) == s,
        ({
            let all = split(s, |x: char| x == c);
            forall|i: int| 0 <= i < all.len() ==> !(#[trigger] all[i]).contains(c)
        }),
    decreases s.len(),
{
    let f = |x: char| x == c;
    let sep = seq![c];
    let all = split(s, f);
    lemma_split_nonempty(s, f);
    if s.len() == 0 {
        assert(all[0] =~= Seq::<char>::empty());
        assert(join(all, sep) =~= s);
    } else {
        let init = s.drop_last();
        let head = split(init, f);
        lemma_split_nonempty(init, f);
        pieces_make_up_the_text(init, c);
        if s.last() == c {
            let none = Seq::<char>::empty();
            assert(all == head.push(none));
            assert(all.drop_last() =~= head);
            assert(join(all, sep) == join(head, sep) + sep + none);
            assert(join(all, sep) =~= s);
        } else {
            let grown = head.last().push(s.last());
            assert(all == head.drop_last().push(grown));
            if head.len() == 1 {
                assert(join(head, sep) == head[0]);
                assert(join(all, sep) =~= s);
            } else {
                assert(all.drop_last() =~= head.drop_last());
                let up = join(head.drop_last(), sep) + sep;
                assert(join(head, sep) == up + head.last());
                assert(join(all, sep) == up + grown);
                assert(up + grown =~= (up + head.last()).push(s.last()));
                assert(init.push(s.last()) =~= s);
            }
            assert forall|i: int| 0 <= i < all.len() implies !(#[trigger] all[i]).contains(c) by {
                if i < all.len() - 1 {
                    assert(all[i] == head[i]);
                } else {
                    let old_last = head[head.len() - 1];
                    assert(!old_last.contains(c));
                    if grown.contains(c) {
                        let k = choose|k: int| 0 <= k < grown.len() && grown[k] == c;
                        assert(old_last[k] == c);
                    }
                }
            }
        }
    }
}

/// Parts are joined one behind the other with the separator between them.
pub proof fn joining_goes_part_by_part(parts: Seq<Seq<char>>, more: Seq<char>, sep: Seq<char>)
    ensures
        join(Seq::<Seq<char>>::empty(), sep) == Seq::<char>::empty(),
        join(seq![more], sep) == more,
        parts.len() > 0 ==> join(parts.push(more), sep) == join(parts, sep) + sep + more,
{
    assert(parts.push(more).drop_last() =~= parts);
}

/// A text that ends with a line break, or an empty one.
pub open spec fn at_line_start(s: Seq<char>) -> bool {
    s.len() == 0 || s.last() == '\n'
}

proof fn lemma_split_at_line_start(s: Seq<char>)
    requires
        at_line_start(s),
    ensures
        split(s, |x: char| x == '\n').last().len() == 0,
        split(s, |x: char| x == '\n').len() >= 1,
{
    lemma_split_nonempty(s, |x: char| x == '\n');
}

/// Lines follow each other: each ends with a line break of either form, the
/// last may go without, and no line holds its own end.
pub proof fn lines_follow_each_other(s: Seq<char>, line: Seq<char>)
    requires
        at_line_start(s),
        !line.contains('\n'),
    ensures
        lines(Seq::<char>::empty()) == Seq::<Seq<char>>::empty(),
        line.len() > 0 ==> lines(s + line) == lines(s).push(line),
        line.len() == 0 || line.last() != '\r' ==> lines((s + line).push('\n')) == lines(s).push(
            line,
        ),
        lines((s + line).push('\r').push('\n')) == lines(s).push(line),
{
    let f = |x: char| x == '\n';
    let none = Seq::<char>::empty();
    assert(split(none, f) == seq![none]);
    assert(lines(none) =~= Seq::<Seq<char>>::empty());
    lemma_split_at_line_start(s);
    let head = split(s, f);
    assert(head.last() =~= none);
    lemma_no_breaks(line);
    lemma_split_append(s, line, f);
    assert(none + line =~= line);
    let with = split(s + line, f);
    assert(with == head.drop_last().push(line));
    if line.len() > 0 {
        assert(lines(s + line) =~= lines(s).push(line));
    }
    lemma_ended(s, line);
    let r = line.push('\r');
    assert(!r.contains('\n')) by {
        if r.contains('\n') {
            let k = choose|k: int| 0 <= k < r.len() && r[k] == '\n';
            assert(line[k] == '\n');
        }
    }
    lemma_ended(s, r);
    assert(s + r =~= (s + line).push('\r'));
    assert(strip_cr(r) =~= line);
}

proof fn lemma_no_breaks(line: Seq<char>)
    requires
        !line.contains('\n'),
    ensures
        forall|i: int| 0 <= i < line.len() ==> (#[trigger] line[i]) != '\n',
{
    assert forall|i: int| 0 <= i < line.len() implies (#[trigger] line[i]) != '\n' by {
        if line[i] == '\n' {
            assert(line.contains('\n'));
        }
    }
}

proof fn lemma_ended(s: Seq<char>, line: Seq<char>)
    requires
        at_line_start(s),
        !line.contains('\n'),
    ensures
        lines((s + line).push('\n')) == lines(s).push(strip_cr(line)),
{
    let f = |x: char| x == '\n';
    let none = Seq::<char>::empty();
    lemma_split_at_line_start(s);
    let head = split(s, f);
    assert(head.last() =~= none);
    lemma_no_breaks(line);
    lemma_split_append(s, line, f);
    assert(none + line =~= line);
    let with = split(s + line, f);
    assert(with == head.drop_last().push(line));
    let t = (s + line).push('\n');
    assert(t.drop_last() =~= s + line);
    assert(split(t, f) == with.push(none));
    assert(lines(t) =~= lines(s).push(strip_cr(line)));
}

// ---------------------------------------------------------------- numbers

/// The number that decimal digits stand for.
pub open spec fn read_decimal(s: Seq<char>) -> int
    decreases s.len(),
{
    if s.len() == 0 {
        0
    } else {
        10 * read_decimal(s.drop_last()) + (s.last() as int - 48)
    }
}

/// A number written in decimal is read back from its digits, and starts with a
/// zero only where it is zero.
pub proof fn decimal_reads_back(n: nat)
    ensures
        read_decimal(decimal(n)) == n,
        decimal(n).len() > 0,
        forall|i: int| 0 <= i < decimal(n).len() ==> 48 <= (#[trigger] decimal(n)[i]) as int <= 57,
        n > 0 ==> decimal(n)[0] != '0',
        n == 0 ==> decimal(n) == seq!['0'],
    decreases n,
{
    let s = decimal(n);
    if n >= 10 {
        let head = decimal(n / 10);
        decimal_reads_back(n / 10);
        assert(s.drop_last() =~= head);
        assert(s[0] == head[0]);
        assert forall|i: int| 0 <= i < s.len() implies 48 <= (#[trigger] s[i]) as int <= 57 by {
            if i < head.len() {
                assert(s[i] == head[i]);
            }
        }
    } else {
        assert(s.drop_last() =~= Seq::<char>::empty());
        assert(read_decimal(s.drop_last()) == 0);
    }
}

// ---------------------------------------------------------------- what is kept

/// A negative number is written with a minus sign in front of its digits.
pub proof fn signs_stand_in_front(n: nat)
    ensures
        signed_decimal(n as int) == decimal(n),
        n > 0 ==> signed_decimal(-(n as int)) == seq!['-'] + decimal(n),
{
}

/// What is kept of two lists one behind the other is what is kept of each.
pub proof fn keeping_goes_item_by_item<T>(items: Seq<T>, more: T, f: spec_fn(T) -> bool)
    ensures
        survivors(Seq::<T>::empty(), f) == Seq::<T>::empty(),
        survivors(items.push(more), f) == if f(more) {
            survivors(items, f).push(more)
        } else {
            survivors(items, f)
        },
{
    assert(items.push(more).drop_last() =~= items);
}

/// How many of the first `n` places satisfy `f`.
pub open spec fn how_many(n: nat, f: spec_fn(int) -> bool) -> nat
    decreases n,
{
    if n == 0 {
        0
    } else {
        how_many((n - 1) as nat, f) + (if f(n - 1) {
            1nat
        } else {
            0nat
        })
    }
}

/// As many items are kept as satisfy the condition.
pub proof fn as_many_are_kept_as_fit<T>(items: Seq<T>, f: spec_fn(T) -> bool)
    ensures
        survivors(items, f).len() == how_many(items.len(), |i: int| f(items[i])),
    decreases items.len(),
{
    if items.len() > 0 {
        let init = items.drop_last();
        as_many_are_kept_as_fit(init, f);
        lemma_how_many_same(
            init.len(),
            |i: int| f(init[i]),
            |i: int| f(items[i]),
        );
    }
}

pub proof fn lemma_how_many_same(n: nat, f: spec_fn(int) -> bool, g: spec_fn(int) -> bool)
    requires
        forall|i: int| 0 <= i < n ==> (#[trigger] f(i) <==> g(i)),
    ensures
        how_many(n, f) == how_many(n, g),
    decreases n,
{
    if n > 0 {
        lemma_how_many_same((n - 1) as nat, f, g);
        assert(f(n - 1) <==> g(n - 1));
    }
}

pub proof fn lemma_how_many_more(n: nat, f: spec_fn(int) -> bool, g: spec_fn(int) -> bool)
    requires
        forall|i: int| 0 <= i < n && #[trigger] f(i) ==> g(i),
    ensures
        how_many(n, f) <= how_many(n, g),
    decreases n,
{
    if n > 0 {
        lemma_how_many_more((n - 1) as nat, f, g);
    }
}

} // verus!
