//! Names in camel case: `is_for_guest` becomes `IsForGuest`. A layer's
//! point type takes its name this way from the layer.

use vstd::prelude::*;
use vstd::string::{StrSliceExecFns, StringExecFns};

verus! {

/// The upper case of a text, as `str::to_uppercase` gives it.
pub uninterp spec fn uppercased(text: Seq<char>) -> Seq<char>;

/// The lower case of a text, as `str::to_lowercase` gives it.
pub uninterp spec fn lowercased(text: Seq<char>) -> Seq<char>;

/// Calls `str::to_uppercase`. The contract only names the result.
#[verifier::external_body]
fn upper_text(text: &str) -> (r: String)
    ensures
        r@ == uppercased(text@),
{
    text.to_uppercase()
}

/// Calls `str::to_lowercase`. The contract only names the result.
#[verifier::external_body]
fn lower_text(text: &str) -> (r: String)
    ensures
        r@ == lowercased(text@),
{
    text.to_lowercase()
}

/// One word in camel case: its first character in upper case, the rest in
/// lower case.
pub open spec fn camel_word(word: Seq<char>) -> Seq<char> {
    uppercased(word.take(1)) + lowercased(word.skip(1))
}

/// The camel case of the words of `text` from the word that starts at
/// `start`, its characters before `at` already seen to hold no underscore.
pub open spec fn camel_from(text: Seq<char>, start: int, at: int) -> Seq<char>
    decreases text.len() - at,
{
    if at >= text.len() {
        camel_word(text.subrange(start, text.len() as int))
    } else if text[at] == '_' {
        camel_word(text.subrange(start, at)) + camel_from(text, at + 1, at + 1)
    } else {
        camel_from(text, start, at + 1)
    }
}

/// The camel case of a text: the words between its underscores, each in
/// camel case, one after the other.
pub open spec fn camel_case(text: Seq<char>) -> Seq<char> {
    camel_from(text, 0, 0)
}

/// Whether a character starts a word: it is no underscore and takes one
/// byte.
pub open spec fn starts_word(c: char) -> bool {
    c != '_' && (c as u32) < 128
}

/// Whether a text is made of words that can be put in camel case: no word
/// is empty and each starts with a one-byte character.
pub open spec fn camel_ready(text: Seq<char>) -> bool {
    &&& text.len() > 0
    &&& starts_word(text[0])
    &&& forall|i: int|
        0 <= i < text.len() && #[trigger] text[i] == '_' ==> i + 1 < text.len() && starts_word(
            text[i + 1],
        )
}

/// Whether a text is made of words that can be put in camel case.
pub fn is_camel_ready(input: &str) -> (r: bool)
    ensures
        r == camel_ready(input@),
{
    let n: usize = input.unicode_len();
    if n == 0 {
        return false;
    }
    let first = input.get_char(0);
    if first == '_' || first as u32 >= 128 {
        return false;
    }
    let mut i: usize = 0;
    while i < n
        invariant
            n == input@.len(),
            0 <= i <= n,
            starts_word(input@[0]),
            forall|k: int|
                0 <= k < i && #[trigger] input@[k] == '_' ==> k + 1 < n && starts_word(
                    input@[k + 1],
                ),
        decreases n - i,
    {
        if input.get_char(i) == '_' {
            if i + 1 >= n {
                return false;
            }
            let next = input.get_char(i + 1);
            if next == '_' || next as u32 >= 128 {
                assert(!starts_word(input@[i + 1]));
                return false;
            }
        }
        i += 1;
    }
    true
}

/// Puts a text in camel case: it is split at its underscores, and each
/// word has its first character put in upper case and the rest in lower
/// case. The words must not be empty and must each start with a one-byte
/// character.
pub fn to_camelcase(input: &str) -> (out: String)
    requires
        camel_ready(input@),
    ensures
        out@ == camel_case(input@),
{
    let n: usize = input.unicode_len();
    let mut out = String::new();
    let mut start: usize = 0;
    let mut i: usize = 0;
    while i < n
        invariant
            n == input@.len(),
            camel_ready(input@),
            0 <= start <= i <= n,
            start < n,
            start == 0 || input@[start - 1] == '_',
            out@ + camel_from(input@, start as int, i as int) == camel_case(input@),
        decreases n - i,
    {
        if input.get_char(i) == '_' {
            let ghost before = out@;
            let word = input.substring_char(start, i);
            assert(start < i) by {
                if start == i {
                    if start == 0 {
                    } else {
                        assert(input@[start - 1] == '_');
                    }
                }
            }
            let head = upper_text(word.substring_char(0, 1));
            let tail = lower_text(word.substring_char(1, i - start));
            out.append(head.as_str());
            out.append(tail.as_str());
            assert(word@.subrange(0, 1) =~= word@.take(1));
            assert(word@.subrange(1, i - start) =~= word@.skip(1));
            assert(out@ =~= before + camel_word(input@.subrange(start as int, i as int)));
            assert(before + camel_from(input@, start as int, i as int) =~= out@ + camel_from(
                input@,
                i + 1,
                i + 1,
            ));
            assert(input@[i as int] == '_');
            start = i + 1;
        }
        i += 1;
    }
    let ghost before = out@;
    let word = input.substring_char(start, n);
    let head = upper_text(word.substring_char(0, 1));
    let tail = lower_text(word.substring_char(1, n - start));
    out.append(head.as_str());
    out.append(tail.as_str());
    assert(word@.subrange(0, 1) =~= word@.take(1));
    assert(word@.subrange(1, n - start) =~= word@.skip(1));
    assert(out@ =~= before + camel_word(input@.subrange(start as int, n as int)));
    out
}

/// The name of the point type of a layer: `Point` and the layer's name in
/// camel case; `None` where the name cannot be put in camel case.
pub open spec fn point_name_of(layer: Seq<char>) -> Option<Seq<char>> {
    if camel_ready(layer) {
        Some("Point"@ + camel_case(layer))
    } else {
        None
    }
}

/// The name of the point type of a layer, `PointEatery` for `eatery`.
pub fn point_name(layer: &str) -> (r: Option<String>)
    ensures
        match r {
            Some(name) => point_name_of(layer@) == Some(name@),
            None => point_name_of(layer@).is_none(),
        },
{
    if !is_camel_ready(layer) {
        return None;
    }
    let mut name = "Point".to_owned();
    let camel = to_camelcase(layer);
    name.append(camel.as_str());
    Some(name)
}

} // verus!
