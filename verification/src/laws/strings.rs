//! Trimming, cutting, splitting and comparing strings.

use crate::text;
use vstd::prelude::*;
use vstd::utf8::*;

verus! {

/// What is left of a string without leading white space is a tail of it that
/// does not begin with white space.
pub proof fn law_trim_front(s: Seq<char>)
    ensures
        text::trim_front(s).len() <= s.len(),
        text::trim_front(s) == s.skip(s.len() - text::trim_front(s).len()),
        text::trim_front(s).len() > 0 ==> !text::is_white(text::trim_front(s).first()),
    decreases s.len(),
{
    if s.len() > 0 && text::is_white(s.first()) {
        law_trim_front(s.drop_first());
        let t = text::trim_front(s);
        assert(s.drop_first().skip(s.len() - 1 - t.len()) =~= s.skip(s.len() - t.len()));
    } else {
        assert(s.skip(0) =~= s);
    }
}

/// What is left of a string without trailing white space is a beginning of it
/// that does not end with white space.
pub proof fn law_trim_back(s: Seq<char>)
    ensures
        text::trim_back(s).len() <= s.len(),
        text::trim_back(s) == s.take(text::trim_back(s).len() as int),
        text::trim_back(s).len() > 0 ==> !text::is_white(text::trim_back(s).last()),
    decreases s.len(),
{
    if s.len() > 0 && text::is_white(s.last()) {
        law_trim_back(s.drop_last());
        let t = text::trim_back(s);
        assert(s.drop_last().take(t.len() as int) =~= s.take(t.len() as int));
    } else {
        assert(s.take(s.len() as int) =~= s);
    }
}

/// A trimmed string neither begins nor ends with white space, and trimming it
/// again changes nothing.
pub proof fn law_trimmed(s: Seq<char>)
    ensures
        text::trimmed(s).len() > 0 ==> !text::is_white(text::trimmed(s).first())
            && !text::is_white(text::trimmed(s).last()),
        text::trimmed(text::trimmed(s)) == text::trimmed(s),
{
    law_trim_front(s);
    law_trim_back(text::trim_front(s));
    let t = text::trimmed(s);
    if t.len() > 0 {
        assert(t.first() == text::trim_front(s).first());
    }
}

/// A string that neither begins nor ends with white space is trimmed.
pub proof fn law_trimmed_fixed(s: Seq<char>)
    requires
        s.len() > 0 ==> !text::is_white(s.first()) && !text::is_white(s.last()),
    ensures
        text::trimmed(s) == s,
{
}

/// What is left of a string without a trailing run of `c` is a beginning of it
/// that does not end with `c`; taking the run off again changes nothing.
pub proof fn law_without_trailing(s: Seq<char>, c: char)
    ensures
        text::without_trailing(s, c).len() <= s.len(),
        text::without_trailing(s, c) == s.take(text::without_trailing(s, c).len() as int),
        text::without_trailing(s, c).len() > 0 ==> text::without_trailing(s, c).last() != c,
        text::without_trailing(text::without_trailing(s, c), c) == text::without_trailing(s, c),
    decreases s.len(),
{
    if s.len() > 0 && s.last() == c {
        law_without_trailing(s.drop_last(), c);
        let t = text::without_trailing(s, c);
        assert(s.drop_last().take(t.len() as int) =~= s.take(t.len() as int));
    } else {
        assert(s.take(s.len() as int) =~= s);
    }
}

/// What is taken off in front is white space.
proof fn lemma_front_is_white(s: Seq<char>)
    ensures
        forall|i: int|
            0 <= i < s.len() - text::trim_front(s).len() ==> text::is_white(#[trigger] s[i]),
    decreases s.len(),
{
    if s.len() > 0 && text::is_white(s.first()) {
        let rest = s.drop_first();
        lemma_front_is_white(rest);
        law_trim_front(rest);
        assert forall|i: int| 0 <= i < s.len() - text::trim_front(s).len() implies text::is_white(
            #[trigger] s[i],
        ) by {
            if i > 0 {
                assert(rest[i - 1] == s[i]);
            }
        }
    }
}

/// What is taken off behind is white space.
proof fn lemma_back_is_white(s: Seq<char>)
    ensures
        forall|i: int|
            text::trim_back(s).len() <= i < s.len() ==> text::is_white(#[trigger] s[i]),
    decreases s.len(),
{
    if s.len() > 0 && text::is_white(s.last()) {
        let rest = s.drop_last();
        lemma_back_is_white(rest);
        assert forall|i: int| text::trim_back(s).len() <= i < s.len() implies text::is_white(
            #[trigger] s[i],
        ) by {
            if i < rest.len() {
                assert(rest[i] == s[i]);
            }
        }
    }
}

/// A trimmed string is a stretch of the string with nothing but white space
/// before it and behind it.
pub proof fn law_trimming_takes_white_only(s: Seq<char>)
    ensures
        exists|a: int, b: int|
            0 <= a <= b <= s.len() && #[trigger] s.subrange(a, b) == text::trimmed(s) && forall|
                i: int,
            |
                0 <= i < a || b <= i < s.len() ==> text::is_white(#[trigger] s[i]),
{
    let front = text::trim_front(s);
    let t = text::trimmed(s);
    law_trim_front(s);
    law_trim_back(front);
    lemma_front_is_white(s);
    lemma_back_is_white(front);
    let a = s.len() - front.len();
    let b = a + t.len();
    assert(s.subrange(a, b) =~= t);
    assert forall|i: int| 0 <= i < a || b <= i < s.len() implies text::is_white(
        #[trigger] s[i],
    ) by {
        if b <= i {
            assert(front[i - a] == s[i]);
        }
    }
}

/// A string is blank exactly where it holds nothing but white space.
pub proof fn law_blank(s: Seq<char>)
    ensures
        text::is_blank(s) <==> forall|i: int|
            0 <= i < s.len() ==> text::is_white(#[trigger] s[i]),
{
    law_trimming_takes_white_only(s);
    law_trimmed(s);
    let (a, b) = choose|a: int, b: int|
        0 <= a <= b <= s.len() && #[trigger] s.subrange(a, b) == text::trimmed(s) && forall|i: int|
            0 <= i < a || b <= i < s.len() ==> text::is_white(#[trigger] s[i]);
    if text::trimmed(s).len() > 0 {
        assert(s[a] == text::trimmed(s)[0]);
    }
}

/// Only `c` is cut off.
pub proof fn law_only_the_run_is_cut_off(s: Seq<char>, c: char)
    ensures
        forall|i: int|
            text::without_trailing(s, c).len() <= i < s.len() ==> #[trigger] s[i] == c,
    decreases s.len(),
{
    if s.len() > 0 && s.last() == c {
        let rest = s.drop_last();
        law_only_the_run_is_cut_off(rest, c);
        assert forall|i: int| text::without_trailing(s, c).len() <= i < s.len() implies
            #[trigger] s[i] == c by {
            if i < rest.len() {
                assert(rest[i] == s[i]);
            }
        }
    }
}

/// A tidied string is the trimmed string without the slashes that end it.
pub proof fn law_tidy(s: Seq<char>)
    ensures
        ({
            let t = text::trimmed(s);
            let r = text::tidy(s);
            &&& r.len() <= t.len()
            &&& r == t.take(r.len() as int)
            &&& forall|i: int| r.len() <= i < t.len() ==> #[trigger] t[i] == '/'
            &&& r.len() > 0 ==> r.last() != '/'
        }),
{
    law_without_trailing(text::trimmed(s), '/');
    law_only_the_run_is_cut_off(text::trimmed(s), '/');
}

/// An optional parameter is wanted exactly where it holds more than white
/// space, and is then trimmed.
pub proof fn law_wanted(s: Seq<char>)
    ensures
        text::wanted(None) is None,
        text::wanted(Some(s)) is None <==> forall|i: int|
            0 <= i < s.len() ==> text::is_white(#[trigger] s[i]),
        text::wanted(Some(s)) matches Some(w) ==> w == text::trimmed(s),
{
    law_blank(s);
}

/// One more origin in a list is one more in the tidied list, tidied, where
/// anything is left of it.
pub proof fn law_tidy_list(list: Seq<Seq<char>>, o: Seq<char>)
    ensures
        text::tidy_list(Seq::<Seq<char>>::empty()).len() == 0,
        text::tidy_list(list.push(o)) == (if text::tidy(o).len() == 0 {
            text::tidy_list(list)
        } else {
            text::tidy_list(list).push(text::tidy(o))
        }),
{
    let tidied = list.map_values(|s: Seq<char>| text::tidy(s));
    let pred = |s: Seq<char>| s.len() > 0;
    tidied.lemma_filter_push(text::tidy(o), pred);
    assert(list.push(o).map_values(|s: Seq<char>| text::tidy(s)) =~= tidied.push(text::tidy(o)));
    let none = Seq::<Seq<char>>::empty();
    assert(none.map_values(|s: Seq<char>| text::tidy(s)) =~= none);
    reveal(Seq::filter);
}

/// Joining one part more puts the separator and the part behind the others.
pub proof fn law_joined(parts: Seq<Seq<char>>, p: Seq<char>, sep: Seq<char>)
    ensures
        text::joined(Seq::<Seq<char>>::empty(), sep).len() == 0,
        text::joined(seq![p], sep) == p,
        parts.len() > 0 ==> text::joined(parts.push(p), sep) == text::joined(parts, sep) + sep + p,
{
    assert(parts.push(p).drop_last() =~= parts);
}

/// The pieces of a string, joined by the separator, are the string.
pub proof fn law_pieces_joined(s: Seq<char>, sep: char)
    ensures
        text::pieces(s, sep).len() > 0,
        text::joined(text::pieces(s, sep), seq![sep]) == s,
    decreases s.len(),
{
    let all = text::pieces(s, sep);
    let between = seq![sep];
    if s.len() == 0 {
        assert(text::joined(all, between) =~= s);
    } else {
        let before = text::pieces(s.drop_last(), sep);
        law_pieces_joined(s.drop_last(), sep);
        let front = before.drop_last();
        if s.last() == sep {
            assert(all.drop_last() =~= before);
            assert(text::joined(all, between) =~= s);
        } else if before.len() == 1 {
            assert(all[0] =~= s);
        } else {
            assert(all.drop_last() =~= front);
            assert(text::joined(all, between) =~= text::joined(before, between).push(s.last()));
            assert(s =~= s.drop_last().push(s.last()));
        }
    }
}

/// Making letters small changes the capitals `A` to `Z` and nothing else.
pub proof fn law_lowered(s: Seq<char>)
    ensures
        text::lowered(s).len() == s.len(),
        forall|i: int|
            0 <= i < s.len() ==> {
                &&& 'A' <= #[trigger] s[i] <= 'Z' ==> text::lowered(s)[i] as int == s[i] as int
                    + 32
                &&& !('A' <= s[i] <= 'Z') ==> text::lowered(s)[i] == s[i]
            },
{
    assert forall|i: int| 0 <= i < s.len() implies {
        &&& 'A' <= #[trigger] s[i] <= 'Z' ==> text::lowered(s)[i] as int == s[i] as int + 32
        &&& !('A' <= s[i] <= 'Z') ==> text::lowered(s)[i] == s[i]
    } by {
        assert(text::lowered(s)[i] == text::lower_char(s[i]));
    }
}

/// A string has a part exactly where it is something, the part, and something.
pub proof fn law_has_part(s: Seq<char>, needle: Seq<char>)
    ensures
        text::has_part(s, needle) <==> exists|a: Seq<char>, b: Seq<char>|
            s == #[trigger] (a + needle + b),
{
    if text::has_part(s, needle) {
        let at = choose|at: int| #[trigger] text::occurs_at(s, needle, at);
        let a = s.take(at);
        let b = s.skip(at + needle.len());
        let part = s.subrange(at, at + needle.len());
        assert(a + part + b =~= s);
        assert(s == a + needle + b);
    }
    if exists|a: Seq<char>, b: Seq<char>| s == #[trigger] (a + needle + b) {
        let (a, b) = choose|a: Seq<char>, b: Seq<char>| s == #[trigger] (a + needle + b);
        assert(s.subrange(a.len() as int, (a.len() + needle.len()) as int) =~= needle);
        assert(text::occurs_at(s, needle, a.len() as int));
    }
}

/// What stands before the first `c` is a beginning of the string without `c`,
/// followed by `c` or by nothing.
pub proof fn law_before_first(s: Seq<char>, c: char)
    ensures
        ({
            let r = text::before_first(s, c);
            &&& r.len() <= s.len()
            &&& r == s.take(r.len() as int)
            &&& !r.contains(c)
            &&& r.len() < s.len() ==> s[r.len() as int] == c
        }),
    decreases s.len(),
{
    let r = text::before_first(s, c);
    if s.len() == 0 || s.first() == c {
        assert(r =~= s.take(0));
    } else {
        let rest = s.drop_first();
        law_before_first(rest, c);
        let q = text::before_first(rest, c);
        assert(r =~= s.take(r.len() as int)) by {
            assert forall|i: int| 0 <= i < r.len() implies r[i] == s[i] by {
                if i > 0 {
                    assert(q[i - 1] == rest.take(q.len() as int)[i - 1]);
                }
            }
        }
        if r.contains(c) {
            let i = choose|i: int| 0 <= i < r.len() && r[i] == c;
            assert(q[i - 1] == c);
        }
        if r.len() < s.len() {
            assert(rest[q.len() as int] == s[r.len() as int]);
        }
    }
}

/// A string stands before another where it is a beginning of it, or has the
/// smaller character at the first place where they differ.
pub proof fn law_precedes(a: Seq<char>, b: Seq<char>)
    ensures
        text::precedes(a, b) <==> exists|k: int|
            0 <= k <= a.len() && k < b.len() && #[trigger] a.take(k) == b.take(k) && (k == a.len()
                || a[k] < b[k]),
    decreases a.len(),
{
    if b.len() > 0 && a.len() > 0 && a.first() == b.first() {
        let x = a.drop_first();
        let y = b.drop_first();
        law_precedes(x, y);
        if text::precedes(a, b) {
            let k = choose|k: int|
                0 <= k <= x.len() && k < y.len() && #[trigger] x.take(k) == y.take(k) && (k
                    == x.len() || x[k] < y[k]);
            assert(a.take(k + 1) =~= seq![a[0]] + x.take(k));
            assert(b.take(k + 1) =~= seq![b[0]] + y.take(k));
        }
        if exists|k: int|
            0 <= k <= a.len() && k < b.len() && #[trigger] a.take(k) == b.take(k) && (k == a.len()
                || a[k] < b[k]) {
            let k = choose|k: int|
                0 <= k <= a.len() && k < b.len() && #[trigger] a.take(k) == b.take(k) && (k
                    == a.len() || a[k] < b[k]);
            assert(k > 0);
            assert(x.take(k - 1) =~= a.take(k).drop_first());
            assert(y.take(k - 1) =~= b.take(k).drop_first());
        }
    } else if b.len() > 0 {
        assert(a.take(0) =~= b.take(0));
        if exists|k: int|
            0 <= k <= a.len() && k < b.len() && #[trigger] a.take(k) == b.take(k) && (k == a.len()
                || a[k] < b[k]) {
            let k = choose|k: int|
                0 <= k <= a.len() && k < b.len() && #[trigger] a.take(k) == b.take(k) && (k
                    == a.len() || a[k] < b[k]);
            if k > 0 {
                assert(a.take(k)[0] == b.take(k)[0]);
            }
        }
    }
}

/// The length of a string is counted in the bytes of its UTF-8 form.
pub proof fn law_byte_len(s: Seq<char>)
    ensures
        text::byte_len(s) == encode_utf8(s).len(),
{
}

/// White space is what Unicode calls so: the controls from tab to carriage
/// return, the space, and the separators beyond ASCII.
pub proof fn law_white(c: char)
    ensures
        text::is_white(c) <==> {
            ||| c == '\t' || c == '\n' || c == '\u{b}' || c == '\u{c}' || c == '\r' || c == ' '
            ||| c == '\u{85}' || c == '\u{a0}' || c == '\u{1680}'
            ||| '\u{2000}' <= c <= '\u{200a}'
            ||| c == '\u{2028}' || c == '\u{2029}' || c == '\u{202f}' || c == '\u{205f}'
            ||| c == '\u{3000}'
        },
{
}

} // verus!
