//! The stages of the pipeline, each a pure function on text.
use vstd::prelude::*;
use crate::classify::{
    ascii_uppercase, is_alphabetic, is_alphanumeric, is_uppercase, is_whitespace, push_char,
};
use crate::model::{
    camel_words, dehyphen, expanded, initial, initials, lemma_sanitized_push, normalized,
    passes_through, sanitized, scan_camel, scan_tokens, strings_view, tokens, uppercase_split,
};

verus! {

/// Removes every character that is not alphanumeric, whitespace or a hyphen.
pub fn remove_punctuation_except_hyphen(input: &str) -> (r: String)
    ensures
        r@ == sanitized(input@),
{
    let mut r = String::new();
    for c in it: input.chars()
        invariant
            it.seq() == input@,
            r@ == sanitized(input@.take(it.index() as int)),
    {
        proof {
            let i = it.index() as int;
            assert(input@.take(i + 1) =~= input@.take(i).push(c));
            lemma_sanitized_push(input@.take(i), c);
        }
        if is_alphanumeric(c) || is_whitespace(c) || c == '-' {
            push_char(&mut r, c);
        }
    }
    proof {
        assert(input@.take(input@.len() as int) =~= input@);
    }
    r
}

/// Replaces every hyphen with a space.
pub fn replace_hyphen_with_space(input: &str) -> (r: String)
    ensures
        r@ == normalized(input@),
{
    let mut r = String::new();
    for c in it: input.chars()
        invariant
            it.seq() == input@,
            r@ == normalized(input@.take(it.index() as int)),
    {
        proof {
            let i = it.index() as int;
            assert(normalized(input@.take(i + 1)) =~= normalized(input@.take(i)).push(dehyphen(c)));
        }
        if c == '-' {
            push_char(&mut r, ' ');
        } else {
            push_char(&mut r, c);
        }
    }
    proof {
        assert(input@.take(input@.len() as int) =~= input@);
    }
    r
}

/// Splits the text into its maximal runs of non-whitespace characters.
pub fn split_on_whitespace(input: &str) -> (r: Vec<String>)
    ensures
        strings_view(r@) == tokens(input@),
{
    let mut done: Vec<String> = Vec::new();
    let mut cur = String::new();
    for c in it: input.chars()
        invariant
            it.seq() == input@,
            strings_view(done@) == scan_tokens(input@.take(it.index() as int)).0,
            cur@ == scan_tokens(input@.take(it.index() as int)).1,
    {
        proof {
            let i = it.index() as int;
            assert(input@.take(i + 1).drop_last() =~= input@.take(i));
        }
        if is_whitespace(c) {
            if !cur.as_str().is_empty() {
                proof {
                    assert(strings_view(done@.push(cur)) =~= strings_view(done@).push(cur@));
                }
                done.push(cur);
                cur = String::new();
            }
        } else {
            push_char(&mut cur, c);
        }
    }
    proof {
        assert(input@.take(input@.len() as int) =~= input@);
    }
    if !cur.as_str().is_empty() {
        proof {
            assert(strings_view(done@.push(cur)) =~= strings_view(done@).push(cur@));
        }
        done.push(cur);
    }
    done
}

/// Whether the word holds no lowercase letter.
pub fn is_all_uppercase_or_nonalpha(word: &str) -> (r: bool)
    ensures
        r == passes_through(word@),
{
    let mut r = true;
    for c in it: word.chars()
        invariant
            it.seq() == word@,
            r == passes_through(word@.take(it.index() as int)),
    {
        proof {
            let i = it.index() as int;
            assert(word@.take(i + 1).drop_last() =~= word@.take(i));
            assert(word@.take(i + 1).last() == c);
        }
        r = r && (!is_alphabetic(c) || is_uppercase(c));
    }
    proof {
        assert(word@.take(word@.len() as int) =~= word@);
    }
    r
}

/// Cuts the word before every uppercase character that follows a non-empty
/// part.
pub fn split_at_uppercase(word: &str) -> (r: Vec<String>)
    ensures
        strings_view(r@) == uppercase_split(word@),
{
    let mut done: Vec<String> = Vec::new();
    let mut cur = String::new();
    for c in it: word.chars()
        invariant
            it.seq() == word@,
            strings_view(done@) == scan_camel(word@.take(it.index() as int)).0,
            cur@ == scan_camel(word@.take(it.index() as int)).1,
    {
        proof {
            let i = it.index() as int;
            assert(word@.take(i + 1).drop_last() =~= word@.take(i));
        }
        if is_uppercase(c) && !cur.as_str().is_empty() {
            proof {
                assert(strings_view(done@.push(cur)) =~= strings_view(done@).push(cur@));
            }
            done.push(cur);
            cur = String::new();
        }
        push_char(&mut cur, c);
    }
    proof {
        assert(word@.take(word@.len() as int) =~= word@);
    }
    if !cur.as_str().is_empty() {
        proof {
            assert(strings_view(done@.push(cur)) =~= strings_view(done@).push(cur@));
        }
        done.push(cur);
    }
    done
}

/// The camel-case words of one token.
pub fn split_camel_case(word: &str) -> (r: Vec<String>)
    ensures
        strings_view(r@) == camel_words(word@),
{
    if word.is_empty() {
        proof {
            assert(strings_view(Seq::<String>::empty()) =~= Seq::<Seq<char>>::empty());
        }
        Vec::new()
    } else if is_all_uppercase_or_nonalpha(word) {
        let mut r: Vec<String> = Vec::new();
        r.push(word.to_owned());
        proof {
            assert(strings_view(r@) =~= seq![word@]);
        }
        r
    } else {
        split_at_uppercase(word)
    }
}

/// The camel-case words of every token, concatenated in order.
pub fn expand_camel_case_list(words: &[String]) -> (r: Vec<String>)
    ensures
        strings_view(r@) == expanded(strings_view(words@)),
{
    let ghost ws = strings_view(words@);
    let mut r: Vec<String> = Vec::new();
    let mut i: usize = 0;
    while i < words.len()
        invariant
            i <= words@.len(),
            ws == strings_view(words@),
            strings_view(r@) == expanded(ws.take(i as int)),
        decreases words@.len() - i,
    {
        let mut parts = split_camel_case(words[i].as_str());
        proof {
            assert(ws.take(i + 1).drop_last() =~= ws.take(i as int));
            assert(strings_view(r@ + parts@) =~= strings_view(r@) + strings_view(parts@));
        }
        r.append(&mut parts);
        i = i + 1;
    }
    proof {
        assert(ws.take(words@.len() as int) =~= ws);
    }
    r
}

/// The first character of the text, if any.
fn first_char(s: &str) -> (r: Option<char>)
    ensures
        s@.len() == 0 ==> r is None,
        s@.len() > 0 ==> r == Some(s@[0]),
{
    let mut it = s.chars();
    it.next()
}

/// The ASCII-uppercased first character of every word, concatenated in order.
pub fn collect_acronym_letters(words: &[String]) -> (r: String)
    ensures
        r@ == initials(strings_view(words@)),
{
    let ghost ws = strings_view(words@);
    let mut r = String::new();
    let mut i: usize = 0;
    while i < words.len()
        invariant
            i <= words@.len(),
            ws == strings_view(words@),
            r@ == initials(ws.take(i as int)),
        decreases words@.len() - i,
    {
        let letter = match first_char(words[i].as_str()) {
            None => '\0',
            Some(c) => ascii_uppercase(c),
        };
        proof {
            assert(initials(ws.take(i + 1)) =~= initials(ws.take(i as int)).push(initial(ws[i as int])));
        }
        push_char(&mut r, letter);
        i = i + 1;
    }
    proof {
        assert(ws.take(words@.len() as int) =~= ws);
    }
    r
}

} // verus!
