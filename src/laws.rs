//! Properties of the pipeline as a whole.
use vstd::prelude::*;
use crate::classify::{alnum_of, ascii_upper, is_space};
use crate::model::{
    acronym, camel_words, close, dehyphen, expanded, initial, initials, kept,
    lemma_sanitized_push, normalized, sanitized, scan_camel, scan_tokens, tokens,
    words_of,
};

verus! {

/// Every character of `w` satisfies `ok`.
pub open spec fn all_chars(w: Seq<char>, ok: spec_fn(char) -> bool) -> bool {
    forall|k: int| 0 <= k < w.len() ==> #[trigger] ok(w[k])
}

/// Every word is non-empty and all its characters satisfy `ok`.
pub open spec fn all_words(ws: Seq<Seq<char>>, ok: spec_fn(char) -> bool) -> bool {
    forall|j: int| 0 <= j < ws.len() ==> #[trigger] ws[j].len() > 0 && all_chars(ws[j], ok)
}

/// Sanitising a text that holds only kept characters changes nothing.
proof fn lemma_sanitized_of_kept(s: Seq<char>)
    requires
        forall|i: int| 0 <= i < s.len() ==> kept(#[trigger] s[i]),
    ensures
        sanitized(s) == s,
    decreases s.len(),
{
    if s.len() == 0 {
        reveal(Seq::filter);
    } else {
        lemma_sanitized_of_kept(s.drop_last());
        lemma_sanitized_push(s.drop_last(), s.last());
        assert(s.drop_last().push(s.last()) =~= s);
    }
}

/// Every character that sanitising keeps is kept and comes from the text.
proof fn lemma_sanitized_chars(s: Seq<char>)
    ensures
        forall|i: int|
            0 <= i < sanitized(s).len() ==> kept(#[trigger] sanitized(s)[i]) && s.contains(
                sanitized(s)[i],
            ),
    decreases s.len(),
{
    if s.len() == 0 {
        reveal(Seq::filter);
    } else {
        let p = s.drop_last();
        lemma_sanitized_chars(p);
        lemma_sanitized_push(p, s.last());
        assert(p.push(s.last()) =~= s);
        assert forall|i: int| 0 <= i < sanitized(s).len() implies kept(
            #[trigger] sanitized(s)[i],
        ) && s.contains(sanitized(s)[i]) by {
            if i < sanitized(p).len() {
                let j = choose|j: int| 0 <= j < p.len() && p[j] == sanitized(p)[i];
                assert(s[j] == p[j]);
            } else {
                assert(s[s.len() - 1] == s.last());
            }
        }
    }
}

/// Sanitising the sanitised text changes nothing: the sanitiser is idempotent.
pub proof fn sanitizing_is_idempotent(s: Seq<char>)
    ensures
        sanitized(sanitized(s)) == sanitized(s),
{
    lemma_sanitized_chars(s);
    lemma_sanitized_of_kept(sanitized(s));
}

/// The acronym holds exactly one letter for each word that camel-case
/// expansion produces.
pub proof fn one_letter_per_word(p: Seq<char>)
    ensures
        acronym(p).len() == words_of(p).len(),
        forall|i: int| 0 <= i < acronym(p).len() ==> #[trigger] acronym(p)[i] == initial(words_of(p)[i]),
{
}

/// Sanitising distributes over concatenation.
proof fn lemma_sanitized_add(a: Seq<char>, b: Seq<char>)
    ensures
        sanitized(a + b) == sanitized(a) + sanitized(b),
    decreases b.len(),
{
    if b.len() == 0 {
        assert(a + b =~= a);
        reveal(Seq::filter);
        assert(sanitized(a) + sanitized(b) =~= sanitized(a));
    } else {
        let c = b.last();
        lemma_sanitized_add(a, b.drop_last());
        assert(a + b =~= (a + b.drop_last()).push(c));
        assert(b =~= b.drop_last().push(c));
        lemma_sanitized_push(a + b.drop_last(), c);
        lemma_sanitized_push(b.drop_last(), c);
        assert((sanitized(a) + sanitized(b.drop_last())).push(c) =~= sanitized(a) + sanitized(
            b.drop_last(),
        ).push(c));
    }
}

/// Normalising distributes over concatenation.
proof fn lemma_normalized_add(a: Seq<char>, b: Seq<char>)
    ensures
        normalized(a + b) == normalized(a) + normalized(b),
{
    assert(normalized(a + b) =~= normalized(a) + normalized(b));
}

/// Scanning on after a point where no token is open adds the tokens of the rest.
proof fn lemma_scan_tokens_add(pre: Seq<char>, y: Seq<char>)
    requires
        scan_tokens(pre).1.len() == 0,
    ensures
        scan_tokens(pre + y).0 == scan_tokens(pre).0 + scan_tokens(y).0,
        scan_tokens(pre + y).1 == scan_tokens(y).1,
    decreases y.len(),
{
    if y.len() == 0 {
        assert(pre + y =~= pre);
        assert(scan_tokens(pre).0 + scan_tokens(y).0 =~= scan_tokens(pre).0);
        assert(scan_tokens(pre).1 =~= scan_tokens(y).1);
    } else {
        lemma_scan_tokens_add(pre, y.drop_last());
        assert((pre + y).drop_last() =~= pre + y.drop_last());
        assert((pre + y).last() == y.last());
        let d = scan_tokens(pre).0;
        let t = scan_tokens(y.drop_last());
        assert(close(d + t.0, t.1) =~= d + close(t.0, t.1));
    }
}

/// Tokens of two texts joined by a whitespace character are the tokens of
/// each, in order.
proof fn lemma_tokens_join(x: Seq<char>, w: char, y: Seq<char>)
    requires
        is_space(w),
    ensures
        tokens(x + seq![w] + y) == tokens(x) + tokens(y),
{
    let xw = x.push(w);
    assert(xw.drop_last() =~= x);
    assert(x + seq![w] + y =~= xw + y);
    lemma_scan_tokens_add(xw, y);
    let t = scan_tokens(y);
    assert(close(tokens(x) + t.0, t.1) =~= tokens(x) + close(t.0, t.1));
}

/// Camel-case expansion distributes over concatenation of token sequences.
proof fn lemma_expanded_add(a: Seq<Seq<char>>, b: Seq<Seq<char>>)
    ensures
        expanded(a + b) == expanded(a) + expanded(b),
    decreases b.len(),
{
    if b.len() == 0 {
        assert(a + b =~= a);
        assert(expanded(a) + expanded(b) =~= expanded(a));
    } else {
        lemma_expanded_add(a, b.drop_last());
        assert((a + b).drop_last() =~= a + b.drop_last());
        assert((a + b).last() == b.last());
        assert(expanded(a) + expanded(b.drop_last()) + camel_words(b.last()) =~= expanded(a) + (
        expanded(b.drop_last()) + camel_words(b.last())));
    }
}

/// The acronym of two phrases joined by a whitespace character is the acronym
/// of the first followed by that of the second. Word order is thus kept: the
/// letters come in the order of the parts they stem from, and exchanging the
/// two parts exchanges their letters.
pub proof fn acronym_of_joined(a: Seq<char>, sep: char, b: Seq<char>)
    requires
        is_space(sep),
    ensures
        acronym(a + seq![sep] + b) == acronym(a) + acronym(b),
{
    let sa = sanitized(a);
    let sb = sanitized(b);
    lemma_sanitized_add(a + seq![sep], b);
    lemma_sanitized_add(a, seq![sep]);
    lemma_sanitized_of_kept(seq![sep]);
    let na = normalized(sa);
    let nb = normalized(sb);
    lemma_normalized_add(sa + seq![sep], sb);
    lemma_normalized_add(sa, seq![sep]);
    let d = dehyphen(sep);
    assert(normalized(seq![sep]) =~= seq![d]);
    assert(is_space(d));
    lemma_tokens_join(na, d, nb);
    lemma_expanded_add(tokens(na), tokens(nb));
    assert(initials(expanded(tokens(na)) + expanded(tokens(nb))) =~= initials(
        expanded(tokens(na)),
    ) + initials(expanded(tokens(nb))));
}

/// Tokens are non-empty and made of the text's non-whitespace characters.
proof fn lemma_tokens_chars(s: Seq<char>, ok: spec_fn(char) -> bool)
    requires
        forall|i: int| 0 <= i < s.len() && !is_space(#[trigger] s[i]) ==> ok(s[i]),
    ensures
        all_words(scan_tokens(s).0, ok),
        all_chars(scan_tokens(s).1, ok),
        all_words(tokens(s), ok),
    decreases s.len(),
{
    if s.len() > 0 {
        let p = s.drop_last();
        assert forall|i: int| 0 <= i < p.len() && !is_space(#[trigger] p[i]) implies ok(p[i]) by {
            assert(p[i] == s[i]);
        }
        lemma_tokens_chars(p, ok);
        assert(s.last() == s[s.len() - 1]);
    }
}

/// Camel-case words are non-empty and made of the token's characters.
proof fn lemma_scan_camel_chars(t: Seq<char>, ok: spec_fn(char) -> bool)
    requires
        all_chars(t, ok),
    ensures
        all_words(scan_camel(t).0, ok),
        all_chars(scan_camel(t).1, ok),
        t.len() > 0 ==> scan_camel(t).1.len() > 0,
    decreases t.len(),
{
    if t.len() > 0 {
        let p = t.drop_last();
        assert forall|k: int| 0 <= k < p.len() implies #[trigger] ok(p[k]) by {
            assert(p[k] == t[k]);
        }
        lemma_scan_camel_chars(p, ok);
        assert(ok(t[t.len() - 1]));
    }
}

/// The words of one token are non-empty and made of its characters.
proof fn lemma_camel_chars(t: Seq<char>, ok: spec_fn(char) -> bool)
    requires
        all_chars(t, ok),
    ensures
        all_words(camel_words(t), ok),
{
    lemma_scan_camel_chars(t, ok);
}

/// The expanded words are non-empty and made of the tokens' characters.
proof fn lemma_expanded_chars(ts: Seq<Seq<char>>, ok: spec_fn(char) -> bool)
    requires
        forall|j: int| 0 <= j < ts.len() ==> all_chars(#[trigger] ts[j], ok),
    ensures
        all_words(expanded(ts), ok),
    decreases ts.len(),
{
    if ts.len() > 0 {
        let p = ts.drop_last();
        assert forall|j: int| 0 <= j < p.len() implies all_chars(#[trigger] p[j], ok) by {
            assert(p[j] == ts[j]);
        }
        lemma_expanded_chars(p, ok);
        assert(all_chars(ts[ts.len() - 1], ok));
        lemma_camel_chars(ts.last(), ok);
        let e = expanded(p);
        let c = camel_words(ts.last());
        assert forall|j: int| 0 <= j < (e + c).len() implies #[trigger] (e + c)[j].len() > 0
            && all_chars((e + c)[j], ok) by {
            if j >= e.len() {
                assert((e + c)[j] == c[j - e.len()]);
            }
        }
    }
}

/// Every word of a phrase is non-empty, and every letter of its acronym is the
/// ASCII uppercase form of an alphanumeric character of the phrase: the null
/// character of an empty word never appears.
pub proof fn letters_stem_from_phrase(p: Seq<char>)
    ensures
        forall|i: int| 0 <= i < words_of(p).len() ==> (#[trigger] words_of(p)[i]).len() > 0,
        forall|i: int|
            0 <= i < acronym(p).len() ==> exists|j: int|
                0 <= j < p.len() && alnum_of(p[j]) && #[trigger] acronym(p)[i] == ascii_upper(p[j]),
{
    let ok = |c: char| alnum_of(c) && p.contains(c);
    let sp = sanitized(p);
    let n = normalized(sp);
    lemma_sanitized_chars(p);
    assert forall|i: int| 0 <= i < n.len() && !is_space(#[trigger] n[i]) implies ok(n[i]) by {
        assert(kept(sp[i]) && p.contains(sp[i]));
        assert(n[i] == dehyphen(sp[i]));
    }
    lemma_tokens_chars(n, ok);
    lemma_expanded_chars(tokens(n), ok);
    let ws = words_of(p);
    assert forall|i: int| 0 <= i < acronym(p).len() implies exists|j: int|
        0 <= j < p.len() && alnum_of(p[j]) && #[trigger] acronym(p)[i] == ascii_upper(p[j]) by {
        assert(ws[i].len() > 0 && all_chars(ws[i], ok));
        assert(ok(ws[i][0]));
        let j = choose|j: int| 0 <= j < p.len() && p[j] == ws[i][0];
        assert(acronym(p)[i] == initial(ws[i]));
    }
}

/// The acronym of a phrase whose alphanumeric characters are all ASCII letters
/// holds only the uppercase letters `'A'..='Z'`.
pub proof fn letters_are_uppercase(p: Seq<char>)
    requires
        forall|j: int|
            0 <= j < p.len() && alnum_of(#[trigger] p[j]) ==> ('a' <= p[j] <= 'z' || 'A' <= p[j]
                <= 'Z'),
    ensures
        forall|i: int| 0 <= i < acronym(p).len() ==> 'A' <= #[trigger] acronym(p)[i] <= 'Z',
{
    letters_stem_from_phrase(p);
    assert forall|i: int| 0 <= i < acronym(p).len() implies 'A' <= #[trigger] acronym(p)[i]
        <= 'Z' by {
        let j = choose|j: int|
            0 <= j < p.len() && alnum_of(p[j]) && #[trigger] acronym(p)[i] == ascii_upper(p[j]);
        let c = p[j];
        if 'a' <= c <= 'z' {
            assert(ascii_upper(c) as u32 == (c as u32) - 32);
        }
    }
}

/// The parts joined into one phrase with a space between neighbours.
pub open spec fn joined(ps: Seq<Seq<char>>) -> Seq<char>
    decreases ps.len(),
{
    if ps.len() == 0 {
        seq![]
    } else if ps.len() == 1 {
        ps[0]
    } else {
        joined(ps.drop_last()) + seq![' '] + ps.last()
    }
}

/// The acronyms of the parts, concatenated in order.
pub open spec fn acronyms_of(ps: Seq<Seq<char>>) -> Seq<char>
    decreases ps.len(),
{
    if ps.len() == 0 {
        seq![]
    } else {
        acronyms_of(ps.drop_last()) + acronym(ps.last())
    }
}

/// The empty phrase has the empty acronym.
proof fn lemma_acronym_empty()
    ensures
        acronym(seq![]) == Seq::<char>::empty(),
{
    let e = Seq::<char>::empty();
    reveal(Seq::filter);
    assert(sanitized(e) =~= e);
    assert(normalized(e) =~= e);
    assert(initials(seq![]) =~= e);
}

/// The acronym of parts joined by spaces is the acronyms of the parts in the
/// order of the parts: whatever order the words of a phrase are put in, their
/// letters come in that same order.
pub proof fn acronym_of_words(ps: Seq<Seq<char>>)
    ensures
        acronym(joined(ps)) == acronyms_of(ps),
    decreases ps.len(),
{
    if ps.len() == 0 {
        lemma_acronym_empty();
        assert(joined(ps) == Seq::<char>::empty());
    } else if ps.len() == 1 {
        lemma_acronym_empty();
        assert(ps.last() == ps[0]);
        assert(acronyms_of(ps.drop_last()) == Seq::<char>::empty());
        assert(Seq::<char>::empty() + acronym(ps[0]) =~= acronym(ps[0]));
    } else {
        acronym_of_words(ps.drop_last());
        acronym_of_joined(joined(ps.drop_last()), ' ', ps.last());
    }
}

} // verus!
