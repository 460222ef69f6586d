use vstd::prelude::*;

verus! {

// ---------------------------------------------------------------------------
// Characters
// ---------------------------------------------------------------------------

/// The Unicode lowercase mapping of a character, as `char::to_lowercase`
/// yields it (one or more characters).
pub uninterp spec fn lowercase_mapping(c: char) -> Seq<char>;

/// The lowercase mapping of one character: for ASCII characters the ASCII
/// case folding, for all others the Unicode mapping.
pub open spec fn char_lowercase(c: char) -> Seq<char> {
    if (c as u32) < 0x80 {
        seq![ascii_lower(c)]
    } else {
        lowercase_mapping(c)
    }
}

/// `c` is one of `a`..=`z`.
pub open spec fn is_ascii_lowercase_letter(c: char) -> bool {
    'a' <= c && c <= 'z'
}

/// The ASCII case folding of a character: `A`..=`Z` become `a`..=`z`,
/// every other character stays as it is.
pub open spec fn ascii_lower(c: char) -> char {
    if 'A' <= c && c <= 'Z' {
        ((c as u32) + 32) as char
    } else {
        c
    }
}

/// The characters with the Unicode `White_Space` property (PropList.txt),
/// which is what `char::is_whitespace` tests.
pub open spec fn is_unicode_whitespace(c: char) -> bool {
    let v = c as u32;
    ||| (0x09 <= v && v <= 0x0d)
    ||| v == 0x20
    ||| v == 0x85
    ||| v == 0xa0
    ||| v == 0x1680
    ||| (0x2000 <= v && v <= 0x200a)
    ||| v == 0x2028
    ||| v == 0x2029
    ||| v == 0x202f
    ||| v == 0x205f
    ||| v == 0x3000
}

/// Whether `c` has the Unicode `White_Space` property.
pub fn is_whitespace_char(c: char) -> (b: bool)
    ensures
        b == is_unicode_whitespace(c),
{
    let v = c as u32;
    (0x09 <= v && v <= 0x0d) || v == 0x20 || v == 0x85 || v == 0xa0 || v == 0x1680 || (0x2000
        <= v && v <= 0x200a) || v == 0x2028 || v == 0x2029 || v == 0x202f || v == 0x205f || v
        == 0x3000
}

/// The lowercase mapping of `c`, collected from `char::to_lowercase`.
/// Of ASCII input the contract states the documented mapping: `A`..=`Z` map
/// to `a`..=`z`, and every other ASCII character, having no lowercase mapping
/// of its own, maps to itself. Of other characters it only names the result
/// `lowercase_mapping(c)`.
#[verifier::external_body]
fn char_to_lowercase(c: char) -> (lowered: Vec<char>)
    ensures
        (c as u32) < 0x80 ==> lowered@ == seq![ascii_lower(c)],
        (c as u32) >= 0x80 ==> lowered@ == lowercase_mapping(c),
{
    c.to_lowercase().collect()
}

/// The lowercase form of a whole string, as `str::to_lowercase` gives it
/// (which, unlike lowering each character alone, treats a final capital
/// sigma by its context).
pub uninterp spec fn string_lowercase(s: Seq<char>) -> Seq<char>;

/// Every character of `s` is ASCII.
pub open spec fn all_ascii(s: Seq<char>) -> bool {
    forall|i: int| 0 <= i < s.len() ==> (#[trigger] s[i] as u32) < 0x80
}

/// The lowercase form of `s` through `str::to_lowercase`. For an ASCII
/// string the contract states the documented result: `A`..=`Z` become
/// `a`..=`z` and every other character stays. For other strings it only
/// names the result `string_lowercase(s)`.
#[verifier::external_body]
pub(crate) fn str_to_lowercase(s: &str) -> (lowered: String)
    ensures
        all_ascii(s@) ==> lowered@ == s@.map_values(|c: char| ascii_lower(c)),
        !all_ascii(s@) ==> lowered@ == string_lowercase(s@),
{
    s.to_lowercase()
}

/// Appends `c` to `s` with `String::push`, which grows the string by exactly
/// that character.
#[verifier::external_body]
pub(crate) fn push_char(s: &mut String, c: char)
    ensures
        final(s)@ == old(s)@.push(c),
{
    s.push(c)
}

/// A string holding the given characters in order.
pub fn string_from_chars(chars: &Vec<char>) -> (s: String)
    ensures
        s@ == chars@,
{
    let mut s = String::new();
    let mut i: usize = 0;
    while i < chars.len()
        invariant
            i <= chars.len(),
            s@ == chars@.take(i as int),
        decreases chars.len() - i,
    {
        push_char(&mut s, chars[i]);
        i = i + 1;
        assert(s@ =~= chars@.take(i as int));
    }
    assert(chars@.take(chars.len() as int) =~= chars@);
    s
}

/// The characters of a string, in order.
pub fn chars_of(s: &str) -> (chars: Vec<char>)
    ensures
        chars@ == s@,
{
    let mut chars: Vec<char> = Vec::new();
    for c in it: s.chars()
        invariant
            chars@ == it.seq().take(it.index() as int),
            it.seq() == s@,
    {
        chars.push(c);
        assert(chars@ =~= it.seq().take(it.index() as int + 1));
    }
    assert(chars@ =~= s@);
    chars
}

// ---------------------------------------------------------------------------
// Training document normalisation
// ---------------------------------------------------------------------------

/// The Unicode lowercase mappings of all characters of `s`, concatenated.
pub open spec fn lowercase_chars(s: Seq<char>) -> Seq<char>
    decreases s.len(),
{
    if s.len() == 0 {
        seq![]
    } else {
        lowercase_chars(s.drop_last()) + char_lowercase(s.last())
    }
}

/// Reading `s` from left to right, keeps ASCII lowercase letters and writes
/// one space for each run of whitespace that follows a kept letter (or a
/// written space is never repeated); every other character is dropped. The
/// second component tells whether the output so far ends in whitespace (or is
/// empty).
pub open spec fn collapse_whitespace(s: Seq<char>) -> (Seq<char>, bool)
    decreases s.len(),
{
    if s.len() == 0 {
        (seq![], true)
    } else {
        let (out, previous_was_space) = collapse_whitespace(s.drop_last());
        let c = s.last();
        if is_ascii_lowercase_letter(c) {
            (out.push(c), false)
        } else if is_unicode_whitespace(c) && !previous_was_space {
            (out.push(' '), true)
        } else {
            (out, previous_was_space)
        }
    }
}

/// `s` without one trailing space, if it ends in one.
pub open spec fn drop_trailing_space(s: Seq<char>) -> Seq<char> {
    if s.len() > 0 && s.last() == ' ' {
        s.drop_last()
    } else {
        s
    }
}

/// A training document as the model sees it: lowercased, reduced to the
/// letters `a`..=`z` and single spaces between words, trimmed.
pub open spec fn normalized_document(document: Seq<char>) -> Seq<char> {
    drop_trailing_space(collapse_whitespace(lowercase_chars(document)).0)
}

/// The output of `collapse_whitespace` holds only letters and spaces, never
/// starts with a space, never holds two spaces in a row, and its flag tells
/// whether it is empty or ends in a space.
proof fn lemma_collapse_shape(s: Seq<char>)
    ensures
        ({
            let (out, previous_was_space) = collapse_whitespace(s);
            &&& forall|i: int|
                0 <= i < out.len() ==> is_ascii_lowercase_letter(#[trigger] out[i]) || out[i]
                    == ' '
            &&& out.len() > 0 ==> out[0] != ' '
            &&& forall|i: int| 0 <= i < out.len() - 1 ==> !(#[trigger] out[i] == ' ' && out[i + 1] == ' ')
            &&& previous_was_space <==> (out.len() == 0 || out.last() == ' ')
        }),
    decreases s.len(),
{
    if s.len() > 0 {
        lemma_collapse_shape(s.drop_last());
    }
}

/// A sequence made of letters `a`..=`z` and single spaces between them, with
/// no space at either end.
pub open spec fn is_normalized(s: Seq<char>) -> bool {
    &&& forall|i: int| 0 <= i < s.len() ==> is_ascii_lowercase_letter(#[trigger] s[i]) || s[i] == ' '
    &&& s.len() > 0 ==> s[0] != ' ' && s.last() != ' '
    &&& forall|i: int| 0 <= i < s.len() - 1 ==> !(#[trigger] s[i] == ' ' && s[i + 1] == ' ')
}

/// Lowercasing a sequence of letters and spaces changes nothing.
proof fn lemma_lowercase_letters_and_spaces(s: Seq<char>)
    requires
        forall|i: int| 0 <= i < s.len() ==> is_ascii_lowercase_letter(#[trigger] s[i]) || s[i] == ' ',
    ensures
        lowercase_chars(s) == s,
    decreases s.len(),
{
    if s.len() > 0 {
        lemma_lowercase_letters_and_spaces(s.drop_last());
        assert(s.drop_last().push(s.last()) =~= s);
    }
}

/// Collapsing whitespace in a sequence of letters and single spaces that does
/// not start with a space changes nothing.
proof fn lemma_collapse_keeps_normal_text(s: Seq<char>)
    requires
        forall|i: int| 0 <= i < s.len() ==> is_ascii_lowercase_letter(#[trigger] s[i]) || s[i] == ' ',
        s.len() > 0 ==> s[0] != ' ',
        forall|i: int| 0 <= i < s.len() - 1 ==> !(#[trigger] s[i] == ' ' && s[i + 1] == ' '),
    ensures
        collapse_whitespace(s) == (s, s.len() == 0 || s.last() == ' '),
    decreases s.len(),
{
    if s.len() > 0 {
        let p = s.drop_last();
        assert forall|i: int| 0 <= i < p.len() - 1 implies !(#[trigger] p[i] == ' ' && p[i + 1] == ' ') by {
            assert(s[i] == p[i] && s[i + 1] == p[i + 1]);
        }
        lemma_collapse_keeps_normal_text(p);
        if s.len() >= 2 {
            assert(s[s.len() - 2] == p.last());
        }
        assert(p.push(s.last()) =~= s);
    }
}

/// Every normalized document is made of letters and single spaces, with no
/// space at either end.
pub proof fn lemma_normalized_document_shape(document: Seq<char>)
    ensures
        is_normalized(normalized_document(document)),
{
    let out = collapse_whitespace(lowercase_chars(document)).0;
    lemma_collapse_shape(lowercase_chars(document));
    let n = normalized_document(document);
    if out.len() > 0 && out.last() == ' ' {
        assert forall|i: int| 0 <= i < n.len() implies is_ascii_lowercase_letter(#[trigger] n[i]) || n[i] == ' ' by {
            assert(n[i] == out[i]);
        }
        assert forall|i: int| 0 <= i < n.len() - 1 implies !(#[trigger] n[i] == ' ' && n[i + 1] == ' ') by {
            assert(n[i] == out[i] && n[i + 1] == out[i + 1]);
        }
        if n.len() > 0 {
            assert(n[0] == out[0]);
            assert(n.last() == out[out.len() - 2]);
        }
    }
}

/// Normalizing a document twice gives what normalizing it once gives.
pub proof fn lemma_normalize_idempotent(document: Seq<char>)
    ensures
        normalized_document(normalized_document(document)) == normalized_document(document),
{
    let n = normalized_document(document);
    lemma_normalized_document_shape(document);
    lemma_lowercase_letters_and_spaces(n);
    lemma_collapse_keeps_normal_text(n);
}

/// Lowercases `document`, keeps only the letters `a`..=`z`, turns each run of
/// whitespace between words into one space and trims the result.
pub fn normalize_training_document(document: &str) -> (normalized: String)
    ensures
        normalized@ == normalized_document(document@),
{
    let chars = chars_of(document);
    let mut out: Vec<char> = Vec::new();
    let mut previous_was_space = true;
    let mut i: usize = 0;
    while i < chars.len()
        invariant
            i <= chars.len(),
            chars@ == document@,
            (out@, previous_was_space) == collapse_whitespace(lowercase_chars(chars@.take(i as int))),
        decreases chars.len() - i,
    {
        let character = chars[i];
        let lowered = char_to_lowercase(character);
        let ghost before = lowercase_chars(chars@.take(i as int));
        let mut j: usize = 0;
        while j < lowered.len()
            invariant
                j <= lowered.len(),
                lowered@ == char_lowercase(character),
                (out@, previous_was_space) == collapse_whitespace(
                    before + lowered@.take(j as int),
                ),
            decreases lowered.len() - j,
        {
            let c = lowered[j];
            let ghost prefix = before + lowered@.take(j as int);
            assert((before + lowered@.take(j as int + 1)).drop_last() =~= prefix);
            if 'a' <= c && c <= 'z' {
                out.push(c);
                previous_was_space = false;
            } else if is_whitespace_char(c) && !previous_was_space {
                out.push(' ');
                previous_was_space = true;
            }
            j = j + 1;
        }
        proof {
            assert(lowered@.take(lowered.len() as int) =~= lowered@);
            assert(chars@.take(i as int + 1).drop_last() =~= chars@.take(i as int));
        }
        i = i + 1;
    }
    assert(chars@.take(chars.len() as int) =~= document@);
    if out.len() > 0 && out[out.len() - 1] == ' ' {
        out.pop();
    }
    string_from_chars(&out)
}

} // verus!
