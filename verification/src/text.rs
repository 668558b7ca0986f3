//! Text utilities beside the tracker: character-exact truncation,
//! case-insensitive phrase containment, and quoting for embedding a string
//! in a command sent to the persistence collaborator.

use vstd::prelude::*;

verus! {

broadcast use {vstd::string::axiom_spec_iter, vstd::string::next_postcondition};

/// The characters of a string, in order, as a vector.
pub fn chars_of(s: &str) -> (r: Vec<char>)
    ensures
        r@ == s@,
{
    let mut it = s.chars();
    let mut r: Vec<char> = Vec::new();
    loop
        invariant
            vstd::std_specs::iter::IteratorSpec::obeys_prophetic_iter_laws(&it),
            vstd::std_specs::iter::IteratorSpec::decrease(&it) is Some,
            r@ + vstd::std_specs::iter::IteratorSpec::remaining(&it) == s@,
        ensures
            r@ == s@,
        decreases vstd::std_specs::iter::IteratorSpec::decrease(&it)->0,
    {
        let ghost before = vstd::std_specs::iter::IteratorSpec::remaining(&it);
        match it.next() {
            Some(c) => {
                proof {
                    assert(r@.push(c) + before.drop_first() =~= r@ + before);
                }
                r.push(c);
            },
            None => {
                proof {
                    assert(r@ + before =~= r@);
                }
                break ;
            },
        }
    }
    r
}

/// Relies on String::push: appends exactly the one character.
#[verifier::external_body]
fn push_char(s: &mut String, c: char)
    ensures
        final(s)@ == old(s)@.push(c),
{
    s.push(c);
}

/// The ellipsis marker appended to truncated text.
pub open spec fn ellipsis() -> Seq<char> {
    seq!['.', '.', '.']
}

/// What truncation returns: the text itself when it fits, its first
/// `limit - 3` characters plus an ellipsis when it must be cut, or its bare
/// first `limit` characters when the limit leaves no room for the marker.
pub open spec fn spec_truncate(t: Seq<char>, limit: int) -> Seq<char> {
    if t.len() <= limit {
        t
    } else if limit > 3 {
        t.subrange(0, limit - 3) + ellipsis()
    } else {
        t.subrange(0, limit)
    }
}

/// Truncate `text` to at most `limit` characters, marking a cut with "...".
pub fn truncate(text: &str, limit: usize) -> (r: String)
    ensures
        r@ == spec_truncate(text@, limit as int),
{
    let chars = chars_of(text);
    if chars.len() <= limit {
        return text.to_owned();
    }
    let n: usize = if limit > 3 {
        limit - 3
    } else {
        limit
    };
    let mut out = String::new();
    let mut i: usize = 0;
    while i < n
        invariant
            i <= n,
            n <= chars.len(),
            chars@ == text@,
            out@ == text@.subrange(0, i as int),
        decreases n - i,
    {
        let c = chars[i];
        push_char(&mut out, c);
        proof {
            assert(text@.subrange(0, i as int + 1) =~= text@.subrange(0, i as int).push(
                text@[i as int],
            ));
        }
        i += 1;
    }
    if limit > 3 {
        push_char(&mut out, '.');
        push_char(&mut out, '.');
        push_char(&mut out, '.');
        proof {
            assert(out@ =~= text@.subrange(0, limit as int - 3) + ellipsis());
        }
    }
    out
}

/// Truncate to the default message limit.
pub fn truncate_default(text: &str) -> (r: String)
    ensures
        r@ == spec_truncate(text@, 1700),
{
    truncate(text, 1700)
}

/// What a string becomes under Unicode lowercasing; a function of the
/// characters alone.
pub uninterp spec fn lower_of(s: Seq<char>) -> Seq<char>;

/// Relies on str::to_lowercase: the lowercase equivalent of the string,
/// depending on its characters alone.
#[verifier::external_body]
fn lowercase(s: &str) -> (r: String)
    ensures
        r@ == lower_of(s@),
{
    s.to_lowercase()
}

/// Whether `needle` occurs in `haystack` as a contiguous run of characters.
pub open spec fn has_substring(haystack: Seq<char>, needle: Seq<char>) -> bool {
    exists|i: int|
        0 <= i <= haystack.len() - needle.len() && #[trigger] haystack.subrange(
            i,
            i + needle.len(),
        ) == needle
}

/// Relies on str::contains: true exactly when the pattern occurs as a
/// contiguous substring.
#[verifier::external_body]
fn str_contains(haystack: &str, needle: &str) -> (r: bool)
    ensures
        r == has_substring(haystack@, needle@),
{
    haystack.contains(needle)
}

/// Case-insensitive phrase containment: whether the lowercased text holds
/// the lowercased phrase as a substring.
pub fn text_contains_phrase(text: &str, phrase: &str) -> (r: bool)
    ensures
        r == has_substring(lower_of(text@), lower_of(phrase@)),
{
    let lowered_text = lowercase(text);
    let lowered_phrase = lowercase(phrase);
    str_contains(lowered_text.as_str(), lowered_phrase.as_str())
}

/// How one character is written inside a double-quoted command string:
/// backslashes, double quotes and newlines are escaped, everything else
/// stands as itself.
pub open spec fn repr_escape_char(c: char) -> Seq<char> {
    if c == '\\' {
        seq!['\\', '\\']
    } else if c == '"' {
        seq!['\\', '"']
    } else if c == '\n' {
        seq!['\\', 'n']
    } else {
        seq![c]
    }
}

/// A whole string escaped character by character.
pub open spec fn repr_escaped(s: Seq<char>) -> Seq<char>
    decreases s.len(),
{
    if s.len() == 0 {
        Seq::empty()
    } else {
        repr_escaped(s.drop_last()) + repr_escape_char(s.last())
    }
}

/// Quote a string for embedding in a command handed to the persistence
/// collaborator: the escaped text between double quotes.
pub fn repr_string(s: &str) -> (r: String)
    ensures
        r@ == seq!['"'] + repr_escaped(s@) + seq!['"'],
{
    let chars = chars_of(s);
    let mut out = String::new();
    push_char(&mut out, '"');
    let mut i: usize = 0;
    while i < chars.len()
        invariant
            i <= chars.len(),
            chars@ == s@,
            out@ == seq!['"'] + repr_escaped(s@.subrange(0, i as int)),
        decreases chars.len() - i,
    {
        let c = chars[i];
        if c == '\\' {
            push_char(&mut out, '\\');
            push_char(&mut out, '\\');
        } else if c == '"' {
            push_char(&mut out, '\\');
            push_char(&mut out, '"');
        } else if c == '\n' {
            push_char(&mut out, '\\');
            push_char(&mut out, 'n');
        } else {
            push_char(&mut out, c);
        }
        proof {
            let prefix = s@.subrange(0, i as int);
            let longer = s@.subrange(0, i as int + 1);
            assert(longer.drop_last() =~= prefix);
            assert(longer.last() == s@[i as int]);
            assert(out@ =~= seq!['"'] + repr_escaped(longer));
        }
        i += 1;
    }
    proof {
        assert(s@.subrange(0, s@.len() as int) =~= s@);
    }
    push_char(&mut out, '"');
    proof {
        assert(out@ =~= seq!['"'] + repr_escaped(s@) + seq!['"']);
    }
    out
}

} // verus!
