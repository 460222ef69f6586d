use vstd::prelude::*;
use crate::model::{CharacterTokenizer, token_map};
use crate::stories::{trim_chars, trim_whitespace};
use crate::text::{all_ascii, ascii_lower, chars_of, str_to_lowercase, string_from_chars, string_lowercase};

verus! {

/// The lowercase form of a string: ASCII case folding for ASCII strings,
/// the Unicode mapping for others.
pub open spec fn lowercase_string(s: Seq<char>) -> Seq<char> {
    if all_ascii(s) {
        s.map_values(|c: char| ascii_lower(c))
    } else {
        string_lowercase(s)
    }
}

/// The prefix a sample starts with: the user's text trimmed and lowercased,
/// without characters the tokenizer does not know, cut so that at least one
/// position of the context window is left to generate.
pub open spec fn sample_prefix(unique_characters: Seq<char>, prefix: Seq<char>, context_window_size: nat) -> Seq<char> {
    let known = lowercase_string(trim_whitespace(prefix)).filter(
        |c: char| token_map(unique_characters).contains_key(c as u32),
    );
    if known.len() <= context_window_size - 1 {
        known
    } else {
        known.take(context_window_size - 1)
    }
}

/// The prefix a sample starts with: `prefix` trimmed and lowercased, keeping
/// only characters the tokenizer knows, at most `context_window_size - 1` of
/// them.
pub fn normalize_sample_prefix(
    prefix: &str,
    tokenizer: &CharacterTokenizer,
    context_window_size: usize,
) -> (normalized: String)
    requires
        tokenizer.wf(),
        context_window_size > 0,
    ensures
        normalized@ == sample_prefix(tokenizer.unique_characters@, prefix@, context_window_size as nat),
{
    reveal_with_fuel(Seq::filter, 1);
    let trimmed = trim_chars(&chars_of(prefix));
    let trimmed_text = string_from_chars(&trimmed);
    let lowered_text = str_to_lowercase(trimmed_text.as_str());
    let lowered = chars_of(lowered_text.as_str());
    let ghost keep = |c: char| token_map(tokenizer.unique_characters@).contains_key(c as u32);
    let ghost known = lowered@.filter(keep);
    assert(lowered@ == lowercase_string(trim_whitespace(prefix@)));
    let limit = context_window_size - 1;
    let mut kept: Vec<char> = Vec::new();
    let mut i: usize = 0;
    while i < lowered.len() && kept.len() < limit
        invariant
            i <= lowered@.len(),
            tokenizer.wf(),
            kept@ == lowered@.take(i as int).filter(keep),
            kept@.len() <= limit,
            keep == |c: char| token_map(tokenizer.unique_characters@).contains_key(c as u32),
        decreases lowered@.len() - i,
    {
        let c = lowered[i];
        proof {
            reveal_with_fuel(Seq::filter, 1);
            assert(lowered@.take(i + 1).drop_last() =~= lowered@.take(i as int));
            assert(lowered@.take(i + 1).last() == c);
            assert(keep(c) == token_map(tokenizer.unique_characters@).contains_key(c as u32));
        }
        let ghost before = kept@;
        if tokenizer.token_id(c).is_some() {
            kept.push(c);
            assert(kept@ == before.push(c));
        }
        i = i + 1;
    }
    proof {
        lemma_filter_prefix(lowered@, keep, i as int);
        if i == lowered.len() {
            assert(lowered@.take(i as int) =~= lowered@);
        }
        assert(known == lowered@.filter(keep));
        if known.len() <= limit {
            if i < lowered.len() {
                assert(kept@.len() == limit);
                assert(known.take(limit as int) =~= known);
            }
            assert(kept@ == known);
        } else {
            assert(i < lowered.len());
        }
    }
    string_from_chars(&kept)
}

/// Filtering a prefix of a sequence gives a prefix of the filtered sequence:
/// if the prefix up to `i` keeps `k` items, those are the first `k` kept.
proof fn lemma_filter_prefix(s: Seq<char>, keep: spec_fn(char) -> bool, i: int)
    requires
        0 <= i <= s.len(),
    ensures
        s.take(i).filter(keep).len() <= s.filter(keep).len(),
        s.take(i).filter(keep) == s.filter(keep).take(s.take(i).filter(keep).len() as int),
    decreases s.len() - i,
{
    reveal_with_fuel(Seq::filter, 1);
    if i < s.len() {
        lemma_filter_prefix(s, keep, i + 1);
        assert(s.take(i + 1).drop_last() =~= s.take(i));
        let a = s.take(i).filter(keep);
        let b = s.take(i + 1).filter(keep);
        let all = s.filter(keep);
        if keep(s[i]) {
            assert(b == a.push(s[i]));
            assert(a =~= b.take(a.len() as int));
            assert(a =~= all.take(a.len() as int));
        } else {
            assert(b == a);
        }
    } else {
        assert(s.take(i) =~= s);
        assert(s.filter(keep).take(s.filter(keep).len() as int) =~= s.filter(keep));
    }
}

/// A sample starts with the first known characters of the user's text: the
/// text is trimmed and lowercased, the characters the tokenizer has no
/// token for are dropped, and then as many of the rest are kept, in order,
/// as fit in one position less than the context window.
pub proof fn lemma_sample_prefix_keeps_first_known_characters(
    unique_characters: Seq<char>,
    prefix: Seq<char>,
    context_window_size: nat,
)
    requires
        context_window_size > 0,
    ensures
        ({
            let text = lowercase_string(trim_whitespace(prefix));
            let known = text.filter(|c: char| token_map(unique_characters).contains_key(c as u32));
            let result = sample_prefix(unique_characters, prefix, context_window_size);
            &&& result.len() == (if known.len() < context_window_size - 1 {
                known.len()
            } else {
                (context_window_size - 1) as nat
            })
            &&& result == known.take(result.len() as int)
            &&& forall|i: int| 0 <= i < result.len() ==> token_map(unique_characters).contains_key(
                (#[trigger] result[i]) as u32,
            )
        }),
{
    let keep = |c: char| token_map(unique_characters).contains_key(c as u32);
    let text = lowercase_string(trim_whitespace(prefix));
    let known = text.filter(keep);
    let result = sample_prefix(unique_characters, prefix, context_window_size);
    if known.len() <= context_window_size - 1 {
        assert(known.take(known.len() as int) =~= known);
    }
    assert forall|i: int| 0 <= i < result.len() implies token_map(unique_characters).contains_key(
        (#[trigger] result[i]) as u32,
    ) by {
        assert(result[i] == known[i]);
        text.lemma_filter_pred(keep, i);
        assert(keep(known[i]));
    }
}

} // verus!
