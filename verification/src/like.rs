//! Keyword search: SQL `LIKE` patterns and what they match.

use crate::text::{
    ascii_lower, ascii_lower_all, chars_of, contains_text, has_chars, lower_chars, occurs_at,
};
use vstd::prelude::*;

verus! {

/// What `text LIKE pattern ESCAPE '\'` means: `%` stands for any run of
/// characters, `_` for any one, a backslash takes the next character
/// literally, and letters compare without regard to ASCII case.
pub open spec fn like(pattern: Seq<char>, text: Seq<char>) -> bool
    decreases pattern.len(), text.len(),
{
    if pattern.len() == 0 {
        text.len() == 0
    } else if pattern[0] == '%' {
        ||| like(pattern.skip(1), text)
        ||| text.len() > 0 && like(pattern, text.skip(1))
    } else if pattern[0] == '_' {
        text.len() > 0 && like(pattern.skip(1), text.skip(1))
    } else if pattern[0] == '\\' {
        pattern.len() > 1 && text.len() > 0 && ascii_lower(pattern[1]) == ascii_lower(text[0])
            && like(pattern.skip(2), text.skip(1))
    } else {
        text.len() > 0 && ascii_lower(pattern[0]) == ascii_lower(text[0]) && like(
            pattern.skip(1),
            text.skip(1),
        )
    }
}

/// `c` as it is written in a pattern to stand for itself.
pub open spec fn escaped_char(c: char) -> Seq<char> {
    if c == '\\' || c == '%' || c == '_' {
        seq!['\\', c]
    } else {
        seq![c]
    }
}

/// `keyword` with every special character of patterns escaped.
pub open spec fn escaped(keyword: Seq<char>) -> Seq<char>
    decreases keyword.len(),
{
    if keyword.len() == 0 {
        Seq::empty()
    } else {
        escaped(keyword.drop_last()) + escaped_char(keyword.last())
    }
}

/// The pattern that looks for `keyword` anywhere.
pub open spec fn keyword_pattern(keyword: Seq<char>) -> Seq<char> {
    seq!['%'] + escaped(keyword) + seq!['%']
}

/// Whether `keyword` stands in `text`, without regard to ASCII case.
pub open spec fn mentions(text: Seq<char>, keyword: Seq<char>) -> bool {
    contains_text(ascii_lower_all(text), ascii_lower_all(keyword))
}

/// Escapes the special characters of patterns.
pub fn escape_like(keyword: &str) -> (r: String)
    ensures
        r@ == escaped(keyword@),
{
    let v = chars_of(keyword);
    let mut s = String::new();
    for i in 0..v.len()
        invariant
            v@ == keyword@,
            s@ == escaped(v@.take(i as int)),
    {
        let c = v[i];
        proof {
            assert(v@.take(i + 1).drop_last() == v@.take(i as int));
            assert(v@.take(i + 1).last() == c);
        }
        if c == '\\' || c == '%' || c == '_' {
            s.push('\\');
        }
        s.push(c);
        assert(s@ == escaped(v@.take(i + 1)));
    }
    assert(v@.take(v@.len() as int) == v@);
    s
}

/// The pattern that looks for `keyword` anywhere.
pub fn like_pattern(keyword: &str) -> (r: String)
    ensures
        r@ == keyword_pattern(keyword@),
{
    let mut s = String::new();
    s.push('%');
    let e = escape_like(keyword);
    s.push_str(e.as_str());
    s.push('%');
    assert(s@ == keyword_pattern(keyword@));
    s
}

/// Whether `keyword` stands in `text`, without regard to ASCII case.
pub fn mentions_keyword(text: &str, keyword: &str) -> (r: bool)
    ensures
        r == mentions(text@, keyword@),
{
    let t = lower_chars(&chars_of(text));
    let k = lower_chars(&chars_of(keyword));
    has_chars(&t, &k)
}

// ---------------------------------------------------------------- laws

proof fn lemma_percent(pattern: Seq<char>, text: Seq<char>)
    requires
        pattern.len() > 0,
        pattern[0] == '%',
    ensures
        like(pattern, text) <==> exists|i: int|
            0 <= i <= text.len() && #[trigger] like(pattern.skip(1), text.skip(i)),
    decreases text.len(),
{
    let rest = pattern.skip(1);
    assert(text.skip(0) == text);
    if text.len() > 0 {
        let tail = text.skip(1);
        lemma_percent(pattern, tail);
        if like(pattern, text) {
            if !like(rest, text) {
                let i = choose|i: int| 0 <= i <= tail.len() && #[trigger] like(rest, tail.skip(i));
                assert(tail.skip(i) == text.skip(i + 1));
                assert(like(rest, text.skip(i + 1)));
            } else {
                assert(like(rest, text.skip(0)));
            }
        }
        if exists|i: int| 0 <= i <= text.len() && #[trigger] like(rest, text.skip(i)) {
            let i = choose|i: int| 0 <= i <= text.len() && #[trigger] like(rest, text.skip(i));
            if i > 0 {
                assert(tail.skip(i - 1) == text.skip(i));
                assert(like(rest, tail.skip(i - 1)));
            }
        }
    } else {
        if like(pattern, text) {
            assert(like(rest, text.skip(0)));
        }
        if exists|i: int| 0 <= i <= text.len() && #[trigger] like(rest, text.skip(i)) {
            let i = choose|i: int| 0 <= i <= text.len() && #[trigger] like(rest, text.skip(i));
            assert(i == 0);
        }
    }
}

proof fn lemma_percent_alone(text: Seq<char>)
    ensures
        like(seq!['%'], text),
    decreases text.len(),
{
    reveal_with_fuel(like, 2);
    let p = seq!['%'];
    assert(p.skip(1).len() == 0);
    if text.len() > 0 {
        lemma_percent_alone(text.skip(1));
    }
}

proof fn lemma_escaped_front(keyword: Seq<char>)
    requires
        keyword.len() > 0,
    ensures
        escaped(keyword) == escaped_char(keyword[0]) + escaped(keyword.skip(1)),
    decreases keyword.len(),
{
    if keyword.len() == 1 {
        assert(keyword.drop_last().len() == 0);
        assert(keyword.skip(1).len() == 0);
        assert(keyword.last() == keyword[0]);
        assert(escaped(keyword.drop_last()) == Seq::<char>::empty());
        assert(escaped(keyword.skip(1)) == Seq::<char>::empty());
        assert(escaped(keyword) == escaped_char(keyword[0]) + escaped(keyword.skip(1)));
    } else {
        let init = keyword.drop_last();
        lemma_escaped_front(init);
        assert(init.skip(1) == keyword.skip(1).drop_last());
        assert(keyword.skip(1).last() == keyword.last());
        assert(escaped(keyword) == escaped_char(keyword[0]) + escaped(keyword.skip(1)));
    }
}

proof fn lemma_escaped_prefix(keyword: Seq<char>, text: Seq<char>)
    ensures
        like(escaped(keyword) + seq!['%'], text) <==> occurs_at(
            ascii_lower_all(text),
            ascii_lower_all(keyword),
            0,
        ),
    decreases keyword.len(),
{
    let p = escaped(keyword) + seq!['%'];
    let lt = ascii_lower_all(text);
    let lk = ascii_lower_all(keyword);
    if keyword.len() == 0 {
        assert(p == seq!['%']);
        lemma_percent_alone(text);
        assert(lt.subrange(0, 0) == lk);
    } else {
        let c = keyword[0];
        let rest = keyword.skip(1);
        let q = escaped(rest) + seq!['%'];
        lemma_escaped_front(keyword);
        assert(p == escaped_char(c) + q);
        assert(p.skip(escaped_char(c).len() as int) == q);
        if text.len() > 0 {
            let tail = text.skip(1);
            lemma_escaped_prefix(rest, tail);
            assert(like(p, text) <==> ascii_lower(c) == ascii_lower(text[0]) && like(q, tail));
            let ltail = ascii_lower_all(tail);
            let lrest = ascii_lower_all(rest);
            assert(lk[0] == ascii_lower(c));
            assert(lt[0] == ascii_lower(text[0]));
            if occurs_at(lt, lk, 0) {
                assert(lt.subrange(0, lk.len() as int)[0] == lk[0]);
                assert forall|j: int| 0 <= j < lrest.len() implies ltail[j] == lrest[j] by {
                    assert(lt.subrange(0, lk.len() as int)[j + 1] == lk[j + 1]);
                    assert(lk[j + 1] == lrest[j]);
                    assert(lt[j + 1] == ltail[j]);
                }
                assert(ltail.subrange(0, lrest.len() as int) == lrest);
            }
            if ascii_lower(c) == ascii_lower(text[0]) && occurs_at(ltail, lrest, 0) {
                assert forall|j: int| 0 <= j < lk.len() implies lt[j] == lk[j] by {
                    if j > 0 {
                        assert(ltail.subrange(0, lrest.len() as int)[j - 1] == lrest[j - 1]);
                        assert(lk[j] == lrest[j - 1]);
                        assert(lt[j] == ltail[j - 1]);
                    }
                }
                assert(lt.subrange(0, lk.len() as int) == lk);
            }
        }
    }
}

/// Wildcards in a keyword are matched literally: the pattern built from a
/// keyword matches exactly the texts that hold the keyword itself.
pub proof fn keyword_pattern_is_literal(keyword: Seq<char>, text: Seq<char>)
    ensures
        like(keyword_pattern(keyword), text) <==> mentions(text, keyword),
{
    let p = keyword_pattern(keyword);
    let q = escaped(keyword) + seq!['%'];
    let lt = ascii_lower_all(text);
    let lk = ascii_lower_all(keyword);
    assert(p.skip(1) == q);
    lemma_percent(p, text);
    assert forall|i: int| 0 <= i <= text.len() implies (like(q, #[trigger] text.skip(i))
        <==> occurs_at(lt, lk, i)) by {
        lemma_escaped_prefix(keyword, text.skip(i));
        let ls = ascii_lower_all(text.skip(i));
        assert(ls == lt.skip(i));
        if i + lk.len() <= lt.len() {
            assert(ls.subrange(0, lk.len() as int) == lt.subrange(i, i + lk.len()));
        }
    }
    if mentions(text, keyword) {
        let i = choose|i: int| occurs_at(lt, lk, i);
        assert(like(q, text.skip(i)));
    }
    if like(p, text) {
        let i = choose|i: int| 0 <= i <= text.len() && #[trigger] like(p.skip(1), text.skip(i));
        assert(occurs_at(lt, lk, i));
    }
}

} // verus!
