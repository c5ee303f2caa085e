//! What rewriting leaves of a `Set-Cookie` value.

use crate::laws::strings;
use crate::proxy;
use crate::text;
use vstd::prelude::*;

verus! {

/// The pieces around a separator are those before it and those behind it.
pub proof fn law_pieces_around(s: Seq<char>, t: Seq<char>, sep: char)
    ensures
        text::pieces(s.push(sep) + t, sep) == text::pieces(s, sep) + text::pieces(t, sep),
        text::pieces(t, sep).len() > 0,
    decreases t.len(),
{
    let whole = s.push(sep) + t;
    let left = text::pieces(s, sep);
    if t.len() == 0 {
        assert(whole =~= s.push(sep));
        assert(whole.drop_last() =~= s);
        assert(text::pieces(whole, sep) =~= left + text::pieces(t, sep));
    } else {
        law_pieces_around(s, t.drop_last(), sep);
        let right = text::pieces(t.drop_last(), sep);
        assert(whole.drop_last() =~= s.push(sep) + t.drop_last());
        assert(whole.last() == t.last());
        assert((left + right).last() == right.last());
        assert(text::pieces(whole, sep) =~= left + text::pieces(t, sep));
    }
}

/// No piece holds the separator.
pub proof fn law_pieces_hold_no_separator(s: Seq<char>, sep: char)
    ensures
        text::pieces(s, sep).len() > 0,
        forall|i: int|
            0 <= i < text::pieces(s, sep).len() ==> !(#[trigger] text::pieces(s, sep)[i]).contains(
                sep,
            ),
    decreases s.len(),
{
    let all = text::pieces(s, sep);
    if s.len() > 0 {
        let before = text::pieces(s.drop_last(), sep);
        law_pieces_hold_no_separator(s.drop_last(), sep);
        assert forall|i: int| 0 <= i < all.len() implies !(#[trigger] all[i]).contains(sep) by {
            if s.last() != sep && i == all.len() - 1 {
                let p = before.last();
                if p.push(s.last()).contains(sep) {
                    let k = choose|k: int|
                        0 <= k < p.len() + 1 && #[trigger] p.push(s.last())[k] == sep;
                    assert(p[k] == sep);
                    assert(before[before.len() - 1].contains(sep));
                }
            } else if i < before.len() {
                assert(all[i] == before[i]);
            }
        }
    }
}

/// A string without the separator is its only piece.
pub proof fn law_single_piece(s: Seq<char>, sep: char)
    requires
        !s.contains(sep),
    ensures
        text::pieces(s, sep) == seq![s],
    decreases s.len(),
{
    if s.len() > 0 {
        let front = s.drop_last();
        assert(s[s.len() - 1] == s.last());
        assert(!front.contains(sep)) by {
            if front.contains(sep) {
                let i = choose|i: int| 0 <= i < front.len() && front[i] == sep;
                assert(s[i] == sep);
            }
        }
        law_single_piece(front, sep);
        assert(seq![front].drop_last().push(front.push(s.last())) =~= seq![s]) by {
            assert(front.push(s.last()) =~= s);
        }
    } else {
        assert(s =~= Seq::<char>::empty());
    }
}

/// A part as `cookie_parts` gives them: not empty, trimmed, without the
/// separator.
pub open spec fn is_part(p: Seq<char>) -> bool {
    p.len() > 0 && text::trimmed(p) == p && !p.contains(';')
}

spec fn trims(s: Seq<Seq<char>>) -> Seq<Seq<char>> {
    s.map_values(|p: Seq<char>| text::trimmed(p))
}

/// Every part of a cookie is trimmed, not empty, and holds no separator.
pub proof fn law_cookie_parts(value: Seq<char>)
    ensures
        forall|i: int|
            0 <= i < proxy::cookie_parts(value).len() ==> is_part(
                #[trigger] proxy::cookie_parts(value)[i],
            ),
{
    let raw = text::pieces(value, ';');
    let t = trims(raw);
    let pred = |p: Seq<char>| p.len() > 0;
    let parts = proxy::cookie_parts(value);
    law_pieces_hold_no_separator(value, ';');
    assert forall|i: int| 0 <= i < parts.len() implies is_part(#[trigger] parts[i]) by {
        t.lemma_filter_pred(pred, i);
        assert(parts.contains(parts[i]));
        t.lemma_filter_contains_rev(pred, parts[i]);
        let k = choose|k: int| 0 <= k < t.len() && t[k] == parts[i];
        let p = raw[k];
        assert(!p.contains(';'));
        strings::law_trimmed(p);
        strings::law_trim_front(p);
        strings::law_trim_back(text::trim_front(p));
        let front = text::trim_front(p);
        if parts[i].contains(';') {
            let j = choose|j: int| 0 <= j < parts[i].len() && parts[i][j] == ';';
            assert(parts[i] == text::trimmed(p));
            assert(front[j] == ';');
            assert(p[p.len() - front.len() + j] == ';');
        }
    }
}

/// The parts of parts that were joined are those parts.
pub proof fn law_parts_of_joined(parts: Seq<Seq<char>>)
    requires
        forall|i: int| 0 <= i < parts.len() ==> is_part(#[trigger] parts[i]),
    ensures
        proxy::cookie_parts(text::joined(parts, "; "@)) == parts,
    decreases parts.len(),
{
    let sep = "; "@;
    let pred = |p: Seq<char>| p.len() > 0;
    let j = text::joined(parts, sep);
    let t = trims(text::pieces(j, ';'));
    reveal_strlit("; ");
    reveal(Seq::filter);
    let none = Seq::<Seq<char>>::empty();
    assert(none.filter(pred) =~= none);
    if parts.len() == 0 {
        none.lemma_filter_push(Seq::<char>::empty(), pred);
        assert(t =~= none.push(Seq::<char>::empty()));
        assert(parts =~= none);
    } else if parts.len() == 1 {
        let p = parts[0];
        assert(is_part(p));
        law_single_piece(p, ';');
        none.lemma_filter_push(p, pred);
        assert(t =~= none.push(p));
        assert(parts =~= none.push(p));
    } else {
        let front = parts.drop_last();
        let last = parts.last();
        assert(forall|i: int| 0 <= i < front.len() ==> front[i] == parts[i]);
        assert(is_part(parts[parts.len() - 1]));
        law_parts_of_joined(front);
        let before = text::joined(front, sep);
        let spaced = seq![' '] + last;
        assert(j =~= before.push(';') + spaced);
        law_pieces_around(before, spaced, ';');
        assert(!spaced.contains(';')) by {
            if spaced.contains(';') {
                let i = choose|i: int| 0 <= i < spaced.len() && spaced[i] == ';';
                assert(last[i - 1] == ';');
            }
        }
        law_single_piece(spaced, ';');
        assert(text::trimmed(spaced) == last) by {
            assert(spaced.drop_first() =~= last);
            assert(text::is_white(' '));
            assert(text::trim_front(spaced) == text::trim_front(last));
        }
        let u = trims(text::pieces(before, ';'));
        assert(t =~= u.push(last));
        assert(t.drop_last() =~= u);
        assert(t.filter(pred) == u.filter(pred).push(last));
        assert(parts =~= front.push(last));
    }
}

/// Of the parts that stay each is one that was there, and stays where it
/// stands now.
pub proof fn law_staying_parts(parts: Seq<Seq<char>>, http: bool)
    ensures
        proxy::staying_parts(parts, http).len() <= parts.len(),
        forall|i: int|
            0 <= i < proxy::staying_parts(parts, http).len() ==> parts.contains(
                #[trigger] proxy::staying_parts(parts, http)[i],
            ) && proxy::cookie_part_stays(i, proxy::staying_parts(parts, http)[i], http),
    decreases parts.len(),
{
    let stay = proxy::staying_parts(parts, http);
    if parts.len() > 0 {
        let front = parts.drop_last();
        law_staying_parts(front, http);
        let before = proxy::staying_parts(front, http);
        assert forall|i: int| 0 <= i < stay.len() implies parts.contains(#[trigger] stay[i])
            && proxy::cookie_part_stays(i, stay[i], http) by {
            if i < before.len() {
                assert(stay[i] == before[i]);
                let k = choose|k: int| 0 <= k < front.len() && front[k] == before[i];
                assert(parts[k] == stay[i]);
            } else {
                assert(parts[parts.len() - 1] == stay[i]);
            }
        }
    }
}

/// Parts of which every one stays all stay.
proof fn lemma_all_stay(parts: Seq<Seq<char>>, http: bool)
    requires
        forall|i: int|
            0 <= i < parts.len() ==> proxy::cookie_part_stays(i, #[trigger] parts[i], http),
    ensures
        proxy::staying_parts(parts, http) == parts,
    decreases parts.len(),
{
    if parts.len() > 0 {
        let front = parts.drop_last();
        assert(forall|i: int| 0 <= i < front.len() ==> front[i] == parts[i]);
        lemma_all_stay(front, http);
        assert(proxy::cookie_part_stays(
            parts.len() - 1,
            parts[parts.len() - 1],
            http,
        ));
        assert(front.push(parts.last()) =~= parts);
    }
}

/// The parts of a rewritten cookie are those that stay.
pub proof fn law_rewritten_parts(value: Seq<char>, http: bool)
    ensures
        proxy::cookie_parts(proxy::rewritten_cookie(value, http)) == proxy::staying_parts(
            proxy::cookie_parts(value),
            http,
        ),
{
    let parts = proxy::cookie_parts(value);
    let stay = proxy::staying_parts(parts, http);
    law_cookie_parts(value);
    law_staying_parts(parts, http);
    assert forall|i: int| 0 <= i < stay.len() implies is_part(#[trigger] stay[i]) by {
        let k = choose|k: int| 0 <= k < parts.len() && parts[k] == stay[i];
        assert(is_part(parts[k]));
    }
    law_parts_of_joined(stay);
}

/// A rewritten cookie has no `Domain` attribute, and no `Secure` where the
/// frontend is reached over plain HTTP.
pub proof fn law_rewritten_attributes(value: Seq<char>, http: bool)
    ensures
        ({
            let parts = proxy::cookie_parts(proxy::rewritten_cookie(value, http));
            &&& forall|i: int|
                0 < i < parts.len() ==> !"domain="@.is_prefix_of(
                    text::lowered(#[trigger] parts[i]),
                )
            &&& http ==> forall|i: int|
                0 <= i < parts.len() ==> text::lowered(#[trigger] parts[i]) != "secure"@
        }),
{
    law_rewritten_parts(value, http);
    law_staying_parts(proxy::cookie_parts(value), http);
}

/// The cookie itself and every other attribute are kept.
pub proof fn law_rewriting_keeps(value: Seq<char>, http: bool, i: int)
    requires
        0 <= i < proxy::cookie_parts(value).len(),
        proxy::cookie_part_stays(i, proxy::cookie_parts(value)[i], http),
    ensures
        proxy::cookie_parts(proxy::rewritten_cookie(value, http)).contains(
            proxy::cookie_parts(value)[i],
        ),
{
    law_rewritten_parts(value, http);
    lemma_kept(proxy::cookie_parts(value), http, i);
}

proof fn lemma_kept(parts: Seq<Seq<char>>, http: bool, i: int)
    requires
        0 <= i < parts.len(),
        proxy::cookie_part_stays(i, parts[i], http),
    ensures
        proxy::staying_parts(parts, http).contains(parts[i]),
    decreases parts.len(),
{
    let front = parts.drop_last();
    let before = proxy::staying_parts(front, http);
    let stay = proxy::staying_parts(parts, http);
    if i < front.len() {
        assert(front[i] == parts[i]);
        lemma_kept(front, http, i);
        let k = choose|k: int| 0 <= k < before.len() && before[k] == parts[i];
        assert(stay[k] == parts[i]);
    } else {
        assert(stay[before.len() as int] == parts[i]);
    }
}

/// Rewriting a cookie again changes nothing.
pub proof fn law_rewriting_idempotent(value: Seq<char>, http: bool)
    ensures
        proxy::rewritten_cookie(proxy::rewritten_cookie(value, http), http)
            == proxy::rewritten_cookie(value, http),
{
    let stay = proxy::staying_parts(proxy::cookie_parts(value), http);
    law_rewritten_parts(value, http);
    law_staying_parts(proxy::cookie_parts(value), http);
    lemma_all_stay(stay, http);
}

/// The parts of a value are those before a semicolon and those behind it; a
/// value without semicolons is one part, trimmed, or none where it is blank.
pub proof fn law_parts(s: Seq<char>, rest: Seq<char>)
    ensures
        proxy::cookie_parts(s.push(';') + rest) == proxy::cookie_parts(s) + proxy::cookie_parts(
            rest,
        ),
        !s.contains(';') ==> proxy::cookie_parts(s) == (if text::is_blank(s) {
            Seq::<Seq<char>>::empty()
        } else {
            seq![text::trimmed(s)]
        }),
{
    let pred = |p: Seq<char>| p.len() > 0;
    let a = trims(text::pieces(s, ';'));
    let b = trims(text::pieces(rest, ';'));
    law_pieces_around(s, rest, ';');
    assert(trims(text::pieces(s.push(';') + rest, ';')) =~= a + b);
    Seq::filter_distributes_over_add(a, b, pred);
    if !s.contains(';') {
        law_single_piece(s, ';');
        reveal(Seq::filter);
        let none = Seq::<Seq<char>>::empty();
        none.lemma_filter_push(text::trimmed(s), pred);
        assert(a =~= none.push(text::trimmed(s)));
        assert(none.filter(pred) =~= none);
        assert(none.push(text::trimmed(s)) =~= seq![text::trimmed(s)]);
    }
}

/// A part that is neither a `Domain` attribute nor `Secure`.
pub open spec fn is_other_part(p: Seq<char>) -> bool {
    !"domain="@.is_prefix_of(text::lowered(p)) && text::lowered(p) != "secure"@
}

/// Of the parts that are neither a `Domain` attribute nor `Secure`, rewriting
/// keeps every one, in its order, and adds none.
pub proof fn law_other_parts_are_kept(value: Seq<char>, http: bool)
    ensures
        proxy::cookie_parts(proxy::rewritten_cookie(value, http)).filter(
            |p: Seq<char>| is_other_part(p),
        ) == proxy::cookie_parts(value).filter(|p: Seq<char>| is_other_part(p)),
{
    law_rewritten_parts(value, http);
    lemma_other_parts(proxy::cookie_parts(value), http);
}

proof fn lemma_other_parts(parts: Seq<Seq<char>>, http: bool)
    ensures
        proxy::staying_parts(parts, http).filter(|p: Seq<char>| is_other_part(p)) == parts.filter(
            |p: Seq<char>| is_other_part(p),
        ),
    decreases parts.len(),
{
    let pred = |p: Seq<char>| is_other_part(p);
    if parts.len() > 0 {
        let front = parts.drop_last();
        let last = parts.last();
        lemma_other_parts(front, http);
        front.lemma_filter_push(last, pred);
        assert(front.push(last) =~= parts);
        proxy::staying_parts(front, http).lemma_filter_push(last, pred);
    } else {
        assert(parts =~= Seq::<Seq<char>>::empty());
    }
}

/// For a frontend that is not reached over plain HTTP, `Secure` is kept too:
/// every part that is no `Domain` attribute is, in its order.
pub proof fn law_secure_is_kept(value: Seq<char>)
    ensures
        proxy::cookie_parts(proxy::rewritten_cookie(value, false)).filter(
            |p: Seq<char>| !"domain="@.is_prefix_of(text::lowered(p)),
        ) == proxy::cookie_parts(value).filter(
            |p: Seq<char>| !"domain="@.is_prefix_of(text::lowered(p)),
        ),
{
    law_rewritten_parts(value, false);
    lemma_secure_stays(proxy::cookie_parts(value));
}

proof fn lemma_secure_stays(parts: Seq<Seq<char>>)
    ensures
        proxy::staying_parts(parts, false).filter(
            |p: Seq<char>| !"domain="@.is_prefix_of(text::lowered(p)),
        ) == parts.filter(|p: Seq<char>| !"domain="@.is_prefix_of(text::lowered(p))),
    decreases parts.len(),
{
    let pred = |p: Seq<char>| !"domain="@.is_prefix_of(text::lowered(p));
    if parts.len() > 0 {
        let front = parts.drop_last();
        let last = parts.last();
        lemma_secure_stays(front);
        front.lemma_filter_push(last, pred);
        assert(front.push(last) =~= parts);
        proxy::staying_parts(front, false).lemma_filter_push(last, pred);
    } else {
        assert(parts =~= Seq::<Seq<char>>::empty());
    }
}

/// The cookie itself, which is the first part, stays the first part whatever
/// its name, but for one that is `Secure` where that is dropped.
pub proof fn law_first_part_is_kept(value: Seq<char>, http: bool)
    requires
        proxy::cookie_parts(value).len() > 0,
        !http || text::lowered(proxy::cookie_parts(value)[0]) != "secure"@,
    ensures
        proxy::cookie_parts(proxy::rewritten_cookie(value, http)).len() > 0,
        proxy::cookie_parts(proxy::rewritten_cookie(value, http))[0] == proxy::cookie_parts(
            value,
        )[0],
{
    law_rewritten_parts(value, http);
    lemma_first_stays(proxy::cookie_parts(value), http);
}

proof fn lemma_first_stays(parts: Seq<Seq<char>>, http: bool)
    requires
        parts.len() > 0,
        !http || text::lowered(parts[0]) != "secure"@,
    ensures
        proxy::staying_parts(parts, http).len() > 0,
        proxy::staying_parts(parts, http)[0] == parts[0],
    decreases parts.len(),
{
    let front = parts.drop_last();
    if front.len() > 0 {
        lemma_first_stays(front, http);
    } else {
        assert(proxy::staying_parts(front, http).len() == 0);
    }
}

/// A rewritten cookie is its parts, with a semicolon and a space between.
pub proof fn law_rewritten_form(value: Seq<char>, http: bool)
    ensures
        proxy::rewritten_cookie(value, http) == text::joined(
            proxy::cookie_parts(proxy::rewritten_cookie(value, http)),
            "; "@,
        ),
{
    law_rewritten_parts(value, http);
}

} // verus!
