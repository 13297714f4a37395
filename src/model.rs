//! The mathematical meaning of each stage, over sequences of characters.
use vstd::prelude::*;
use crate::classify::{alnum_of, alphabetic_of, ascii_upper, is_space, uppercase_of};

verus! {

/// A character that survives sanitising: alphanumeric, whitespace or a hyphen.
pub open spec fn kept(c: char) -> bool {
    alnum_of(c) || is_space(c) || c == '-'
}

/// The phrase with every character that is not kept removed, order preserved.
pub open spec fn sanitized(s: Seq<char>) -> Seq<char> {
    s.filter(|c: char| kept(c))
}

/// Sanitising a text extended by one character.
pub proof fn lemma_sanitized_push(s: Seq<char>, c: char)
    ensures
        sanitized(s.push(c)) == if kept(c) {
            sanitized(s).push(c)
        } else {
            sanitized(s)
        },
{
    reveal(Seq::filter);
    assert(s.push(c).drop_last() =~= s);
}

/// A hyphen becomes a space; every other character stays.
pub open spec fn dehyphen(c: char) -> char {
    if c == '-' {
        ' '
    } else {
        c
    }
}

/// The text with every hyphen replaced by a space.
pub open spec fn normalized(s: Seq<char>) -> Seq<char> {
    s.map_values(|c: char| dehyphen(c))
}

/// Appends the word being read to the closed words, unless it is empty.
pub open spec fn close(done: Seq<Seq<char>>, cur: Seq<char>) -> Seq<Seq<char>> {
    if cur.len() == 0 {
        done
    } else {
        done.push(cur)
    }
}

/// A left-to-right scan for tokens: the tokens closed so far, and the run of
/// non-whitespace characters being read.
pub open spec fn scan_tokens(s: Seq<char>) -> (Seq<Seq<char>>, Seq<char>)
    decreases s.len(),
{
    if s.len() == 0 {
        (seq![], seq![])
    } else {
        let prev = scan_tokens(s.drop_last());
        let c = s.last();
        if is_space(c) {
            (close(prev.0, prev.1), seq![])
        } else {
            (prev.0, prev.1.push(c))
        }
    }
}

/// The maximal runs of non-whitespace characters, in order.
pub open spec fn tokens(s: Seq<char>) -> Seq<Seq<char>> {
    close(scan_tokens(s).0, scan_tokens(s).1)
}

/// A token that holds no lowercase letter: every character is either not
/// alphabetic or uppercase. Such a token is not split.
pub open spec fn passes_through(t: Seq<char>) -> bool {
    forall|i: int| 0 <= i < t.len() ==> !alphabetic_of(t[i]) || uppercase_of(t[i])
}

/// A left-to-right scan for camel-case words: the words closed so far, and the
/// word being read. An uppercase character closes a non-empty word and starts
/// the next one; every other character extends the current word.
pub open spec fn scan_camel(t: Seq<char>) -> (Seq<Seq<char>>, Seq<char>)
    decreases t.len(),
{
    if t.len() == 0 {
        (seq![], seq![])
    } else {
        let prev = scan_camel(t.drop_last());
        let c = t.last();
        if uppercase_of(c) && prev.1.len() > 0 {
            (prev.0.push(prev.1), seq![c])
        } else {
            (prev.0, prev.1.push(c))
        }
    }
}

/// The token cut before every uppercase character that follows a non-empty word.
pub open spec fn uppercase_split(t: Seq<char>) -> Seq<Seq<char>> {
    close(scan_camel(t).0, scan_camel(t).1)
}

/// The words of one token: none for an empty token, the token itself when it
/// holds no lowercase letter, else its camel-case split.
pub open spec fn camel_words(t: Seq<char>) -> Seq<Seq<char>> {
    if t.len() == 0 {
        seq![]
    } else if passes_through(t) {
        seq![t]
    } else {
        uppercase_split(t)
    }
}

/// The words of every token, concatenated in order.
pub open spec fn expanded(ts: Seq<Seq<char>>) -> Seq<Seq<char>>
    decreases ts.len(),
{
    if ts.len() == 0 {
        seq![]
    } else {
        expanded(ts.drop_last()) + camel_words(ts.last())
    }
}

/// The letter a word contributes: its first character in ASCII uppercase, or
/// the null character for an empty word.
pub open spec fn initial(w: Seq<char>) -> char {
    if w.len() == 0 {
        '\0'
    } else {
        ascii_upper(w[0])
    }
}

/// The letter of every word, in order.
pub open spec fn initials(ws: Seq<Seq<char>>) -> Seq<char> {
    ws.map_values(|w: Seq<char>| initial(w))
}

/// The words that a phrase is cut into, after sanitising, hyphen
/// normalisation, tokenising and camel-case expansion.
pub open spec fn words_of(p: Seq<char>) -> Seq<Seq<char>> {
    expanded(tokens(normalized(sanitized(p))))
}

/// The acronym of a phrase.
pub open spec fn acronym(p: Seq<char>) -> Seq<char> {
    initials(words_of(p))
}

/// The contents of a sequence of strings.
pub open spec fn strings_view(ws: Seq<String>) -> Seq<Seq<char>> {
    ws.map_values(|w: String| w@)
}

} // verus!
