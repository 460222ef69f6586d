use vstd::prelude::*;
use std::collections::HashMap;
use vstd::multiset::Multiset;
use crate::config::TrainingRunConfig;
use crate::random::{fisher_yates, fisher_yates_draws, is_index_permutation, shuffled_indices};
use rand_chacha::ChaCha8Rng;
use crate::text::{is_unicode_whitespace, is_whitespace_char, push_char, chars_of, string_from_chars};

verus! {

/// One story of the input data set and the model that wrote it.
#[derive(Clone, Debug)]
pub struct Story {
    pub story: String,
    pub source: String,
}

/// The sentences kept from one story. Stories stay grouped so that a whole
/// story lands either in the training set or in the validation set.
#[derive(Clone, Debug)]
pub struct TrainingStoryDocuments {
    pub sentences: Vec<String>,
}

/// The characters of each string.
pub open spec fn string_views(strings: Seq<String>) -> Seq<Seq<char>> {
    strings.map_values(|s: String| s@)
}

// ---------------------------------------------------------------------------
// Sentence splitting
// ---------------------------------------------------------------------------

/// `.`, `?` and `!` end a sentence.
pub open spec fn is_sentence_end(c: char) -> bool {
    c == '.' || c == '?' || c == '!'
}

/// Reading `s` from left to right: the sentences closed so far (each with
/// its closing punctuation) and the characters read since the last one.
pub open spec fn split_pending(s: Seq<char>) -> (Seq<Seq<char>>, Seq<char>)
    decreases s.len(),
{
    if s.len() == 0 {
        (seq![], seq![])
    } else {
        let (done, current) = split_pending(s.drop_last());
        let c = s.last();
        if is_sentence_end(c) {
            (done.push(current.push(c)), seq![])
        } else {
            (done, current.push(c))
        }
    }
}

/// `s` cut after every `.`, `?` and `!`, keeping the punctuation with its
/// sentence; text after the last one forms a final piece.
pub open spec fn split_sentences(s: Seq<char>) -> Seq<Seq<char>> {
    let (done, current) = split_pending(s);
    if current.len() > 0 {
        done.push(current)
    } else {
        done
    }
}

/// `piece` is non-empty and holds sentence-ending punctuation at most as
/// its last character.
pub open spec fn is_sentence_piece(piece: Seq<char>) -> bool {
    &&& piece.len() > 0
    &&& forall|j: int| 0 <= j < piece.len() - 1 ==> !is_sentence_end(#[trigger] piece[j])
}

proof fn lemma_split_pending_pieces(s: Seq<char>)
    ensures
        ({
            let (done, current) = split_pending(s);
            &&& done.flatten() + current == s
            &&& forall|i: int| 0 <= i < done.len() ==> is_sentence_piece(#[trigger] done[i]) && is_sentence_end(done[i].last())
            &&& forall|j: int| 0 <= j < current.len() ==> !is_sentence_end(#[trigger] current[j])
        }),
    decreases s.len(),
{
    broadcast use Seq::lemma_flatten_push;
    if s.len() > 0 {
        lemma_split_pending_pieces(s.drop_last());
        let (done, current) = split_pending(s.drop_last());
        let c = s.last();
        assert(s.drop_last().push(c) =~= s);
        if is_sentence_end(c) {
            let piece = current.push(c);
            assert(done.push(piece).flatten() == done.flatten() + piece);
            assert((done.flatten() + current).push(c) =~= done.flatten() + piece + seq![]);
            assert forall|i: int| 0 <= i < done.push(piece).len() implies is_sentence_piece(#[trigger] done.push(piece)[i]) && is_sentence_end(done.push(piece)[i].last()) by {
                if i < done.len() {
                    assert(done.push(piece)[i] == done[i]);
                } else {
                    assert forall|j: int| 0 <= j < piece.len() - 1 implies !is_sentence_end(#[trigger] piece[j]) by {
                        assert(piece[j] == current[j]);
                    }
                }
            }
        } else {
            assert((done.flatten() + current).push(c) =~= done.flatten() + current.push(c));
        }
    }
}

/// The sentences of a story, put back together, give the story; every one is
/// non-empty, holds punctuation at most as its last character, and all but
/// the last end in punctuation.
pub proof fn lemma_split_sentences_partition(s: Seq<char>)
    ensures
        split_sentences(s).flatten() == s,
        forall|i: int| 0 <= i < split_sentences(s).len() ==> is_sentence_piece(#[trigger] split_sentences(s)[i]),
        forall|i: int| 0 <= i < split_sentences(s).len() - 1 ==> is_sentence_end(#[trigger] split_sentences(s)[i].last()),
{
    broadcast use Seq::lemma_flatten_push;
    lemma_split_pending_pieces(s);
    let (done, current) = split_pending(s);
    if current.len() > 0 {
        assert(done.push(current).flatten() == done.flatten() + current);
        assert forall|i: int| 0 <= i < done.push(current).len() implies is_sentence_piece(#[trigger] done.push(current)[i]) by {
            if i < done.len() {
                assert(done.push(current)[i] == done[i]);
            }
        }
        assert forall|i: int| 0 <= i < done.push(current).len() - 1 implies is_sentence_end(#[trigger] done.push(current)[i].last()) by {
            assert(done.push(current)[i] == done[i]);
        }
    } else {
        assert(done.flatten() + current =~= done.flatten());
    }
}

/// Cuts `story` into sentences after each `.`, `?` and `!`, keeping the
/// punctuation with its sentence; trailing text without punctuation forms a
/// last sentence.
pub fn split_sentences_keep_punctuation(story: &str) -> (sentences: Vec<String>)
    ensures
        string_views(sentences@) == split_sentences(story@),
{
    let chars = chars_of(story);
    let mut sentences: Vec<String> = Vec::new();
    let mut current = String::new();
    let mut i: usize = 0;
    while i < chars.len()
        invariant
            i <= chars.len(),
            chars@ == story@,
            (string_views(sentences@), current@) == split_pending(chars@.take(i as int)),
        decreases chars.len() - i,
    {
        let c = chars[i];
        assert(chars@.take(i as int + 1).drop_last() =~= chars@.take(i as int));
        push_char(&mut current, c);
        if c == '.' || c == '?' || c == '!' {
            let finished = current;
            current = String::new();
            let ghost before = sentences@;
            sentences.push(finished);
            assert(string_views(sentences@) =~= string_views(before).push(finished@));
        }
        i = i + 1;
    }
    assert(chars@.take(chars.len() as int) =~= story@);
    if !current.as_str().is_empty() {
        let ghost before = sentences@;
        sentences.push(current);
        assert(string_views(sentences@) =~= string_views(before).push(current@));
    }
    sentences
}

// ---------------------------------------------------------------------------
// Sentence cleaning and admission
// ---------------------------------------------------------------------------

/// Characters that disqualify a sentence from the training data: quotes,
/// brackets, symbols, dashes, accented letters, colons, semicolons, digits.
pub open spec fn is_disqualifying_char(c: char) -> bool {
    ||| c == '$' || c == '&' || c == '"' || c == '\u{201c}' || c == '\u{201d}'
    ||| c == '(' || c == ')' || c == '*' || c == '\'' || c == '_' || c == '-'
    ||| c == '\u{2013}' || c == '\u{2026}' || c == '%' || c == '~' || c == '`'
    ||| c == '[' || c == ']' || c == '{' || c == '}' || c == '\\' || c == ';'
    ||| c == '|' || c == '\u{2014}' || c == '\u{e9}' || c == '/' || c == '\u{2019}'
    ||| c == '\u{2018}' || c == ':' || ('0' <= c && c <= '9')
}

fn is_disqualifying(c: char) -> (b: bool)
    ensures
        b == is_disqualifying_char(c),
{
    c == '$' || c == '&' || c == '"' || c == '\u{201c}' || c == '\u{201d}' || c == '(' || c
        == ')' || c == '*' || c == '\'' || c == '_' || c == '-' || c == '\u{2013}' || c
        == '\u{2026}' || c == '%' || c == '~' || c == '`' || c == '[' || c == ']' || c == '{'
        || c == '}' || c == '\\' || c == ';' || c == '|' || c == '\u{2014}' || c == '\u{e9}'
        || c == '/' || c == '\u{2019}' || c == '\u{2018}' || c == ':' || ('0' <= c && c <= '9')
}

/// `s` holds a disqualifying character.
pub open spec fn has_disqualifying_char(s: Seq<char>) -> bool {
    exists|i: int| 0 <= i < s.len() && is_disqualifying_char(#[trigger] s[i])
}

/// `s` with line breaks turned into spaces.
pub open spec fn replace_newlines(s: Seq<char>) -> Seq<char> {
    s.map_values(|c: char| if c == '\n' { ' ' } else { c })
}

/// `s` without its leading whitespace.
pub open spec fn trim_start(s: Seq<char>) -> Seq<char>
    decreases s.len(),
{
    if s.len() > 0 && is_unicode_whitespace(s[0]) {
        trim_start(s.drop_first())
    } else {
        s
    }
}

/// `s` without its trailing whitespace.
pub open spec fn trim_end(s: Seq<char>) -> Seq<char>
    decreases s.len(),
{
    if s.len() > 0 && is_unicode_whitespace(s.last()) {
        trim_end(s.drop_last())
    } else {
        s
    }
}

/// `s` without leading and trailing whitespace, as `str::trim` gives it.
pub open spec fn trim_whitespace(s: Seq<char>) -> Seq<char> {
    trim_end(trim_start(s))
}

/// A sentence as it enters the training data: line breaks become spaces and
/// surrounding whitespace is trimmed.
pub open spec fn clean_sentence(s: Seq<char>) -> Seq<char> {
    trim_whitespace(replace_newlines(s))
}

/// The number of bytes UTF-8 needs for `c`.
pub open spec fn utf8_len(c: char) -> nat {
    let v = c as u32;
    if v < 0x80 {
        1
    } else if v < 0x800 {
        2
    } else if v < 0x10000 {
        3
    } else {
        4
    }
}

/// The number of bytes UTF-8 needs for `s`.
pub open spec fn utf8_byte_len(s: Seq<char>) -> nat
    decreases s.len(),
{
    if s.len() == 0 {
        0
    } else {
        utf8_byte_len(s.drop_last()) + utf8_len(s.last())
    }
}

/// A cleaned sentence is long enough (more than ten bytes), holds at least
/// two words, and fits the context window in characters.
pub open spec fn is_training_sentence(clean: Seq<char>, context_window_size: nat) -> bool {
    &&& utf8_byte_len(clean) > 10
    &&& clean.contains(' ')
    &&& clean.len() < context_window_size
}

/// The sentences of one story that enter the training data, in order: each
/// piece free of disqualifying characters is cleaned; it is kept if it is a
/// training sentence that is neither in `seen` nor kept already; no more than
/// `limit` are kept.
pub open spec fn accepted_sentences(
    pieces: Seq<Seq<char>>,
    seen: Seq<Seq<char>>,
    limit: nat,
    context_window_size: nat,
) -> Seq<Seq<char>>
    decreases pieces.len(),
{
    if pieces.len() == 0 {
        seq![]
    } else {
        let kept = accepted_sentences(pieces.drop_last(), seen, limit, context_window_size);
        let piece = pieces.last();
        let clean = clean_sentence(piece);
        if kept.len() < limit && !has_disqualifying_char(piece) && is_training_sentence(
            clean,
            context_window_size,
        ) && !seen.contains(clean) && !kept.contains(clean) {
            kept.push(clean)
        } else {
            kept
        }
    }
}

/// The sentence groups that the stories give, one group per story that
/// contributes a sentence: only stories written by GPT-4 count, a sentence
/// is kept once over all stories, and no more than `max_document_count`
/// sentences are kept in all.
pub open spec fn sentence_groups(
    stories: Seq<Story>,
    max_document_count: nat,
    context_window_size: nat,
) -> Seq<Seq<Seq<char>>>
    decreases stories.len(),
{
    if stories.len() == 0 {
        seq![]
    } else {
        let groups = sentence_groups(stories.drop_last(), max_document_count, context_window_size);
        let story = stories.last();
        let total = groups.flatten().len();
        if story.source@ != "GPT-4"@ || total >= max_document_count {
            groups
        } else {
            let kept = accepted_sentences(
                split_sentences(story.story@),
                groups.flatten(),
                (max_document_count - total) as nat,
                context_window_size,
            );
            if kept.len() == 0 {
                groups
            } else {
                groups.push(kept)
            }
        }
    }
}

/// The sentences of each group.
pub open spec fn group_views(groups: Seq<TrainingStoryDocuments>) -> Seq<Seq<Seq<char>>> {
    groups.map_values(|g: TrainingStoryDocuments| string_views(g.sentences@))
}

// ---------------------------------------------------------------------------
// Executable cleaning
// ---------------------------------------------------------------------------

proof fn lemma_trim_start_skip(s: Seq<char>, a: int)
    requires
        0 <= a < s.len(),
        is_unicode_whitespace(s[a]),
    ensures
        trim_start(s.subrange(a, s.len() as int)) == trim_start(s.subrange(a + 1, s.len() as int)),
{
    let t = s.subrange(a, s.len() as int);
    assert(t[0] == s[a]);
    assert(t.drop_first() =~= s.subrange(a + 1, s.len() as int));
}

proof fn lemma_trim_end_skip(s: Seq<char>, b: int)
    requires
        0 < b <= s.len(),
        is_unicode_whitespace(s[b - 1]),
    ensures
        trim_end(s.subrange(0, b)) == trim_end(s.subrange(0, b - 1)),
{
    let t = s.subrange(0, b);
    assert(t.last() == s[b - 1]);
    assert(t.drop_last() =~= s.subrange(0, b - 1));
}

/// The cleaned form of a sentence: line breaks become spaces, then
/// surrounding whitespace is trimmed.
fn clean_sentence_chars(piece: &Vec<char>) -> (clean: Vec<char>)
    ensures
        clean@ == clean_sentence(piece@),
{
    let mut replaced: Vec<char> = Vec::new();
    let mut i: usize = 0;
    while i < piece.len()
        invariant
            i <= piece.len(),
            replaced@ == replace_newlines(piece@).take(i as int),
        decreases piece.len() - i,
    {
        let c = piece[i];
        if c == '\n' {
            replaced.push(' ');
        } else {
            replaced.push(c);
        }
        i = i + 1;
        assert(replaced@ =~= replace_newlines(piece@).take(i as int));
    }
    assert(replaced@ =~= replace_newlines(piece@));
    trim_chars(&replaced)
}

/// The characters without leading and trailing whitespace.
pub fn trim_chars(chars: &Vec<char>) -> (trimmed: Vec<char>)
    ensures
        trimmed@ == trim_whitespace(chars@),
{
    let ghost r = chars@;
    let n = chars.len();
    let mut a: usize = 0;
    assert(r.subrange(0, n as int) =~= r);
    while a < n && is_whitespace_char(chars[a])
        invariant
            a <= n,
            n == chars@.len(),
            chars@ == r,
            trim_start(r) == trim_start(r.subrange(a as int, n as int)),
        decreases n - a,
    {
        proof {
            lemma_trim_start_skip(r, a as int);
        }
        a = a + 1;
    }
    let ghost t = r.subrange(a as int, n as int);
    assert(trim_start(r) == t) by {
        if a < n {
            assert(t[0] == r[a as int]);
        }
    }
    let mut b: usize = n;
    assert(t.subrange(0, (b - a) as int) =~= t);
    while b > a && is_whitespace_char(chars[b - 1])
        invariant
            a <= b <= n,
            n == chars@.len(),
            chars@ == r,
            t == r.subrange(a as int, n as int),
            trim_end(t) == trim_end(t.subrange(0, (b - a) as int)),
        decreases b - a,
    {
        proof {
            assert(t[(b - a) - 1] == r[b - 1]);
            lemma_trim_end_skip(t, (b - a) as int);
        }
        b = b - 1;
    }
    assert(trim_end(t) == t.subrange(0, (b - a) as int)) by {
        if b > a {
            assert(t.subrange(0, (b - a) as int).last() == r[b - 1]);
        }
    }
    let mut trimmed: Vec<char> = Vec::new();
    let mut k: usize = a;
    while k < b
        invariant
            a <= k <= b,
            b <= n,
            n == chars@.len(),
            chars@ == r,
            trimmed@ == r.subrange(a as int, k as int),
        decreases b - k,
    {
        trimmed.push(chars[k]);
        k = k + 1;
        assert(trimmed@ =~= r.subrange(a as int, k as int));
    }
    assert(trimmed@ =~= t.subrange(0, (b - a) as int));
    trimmed
}

fn contains_disqualifying_char(s: &Vec<char>) -> (b: bool)
    ensures
        b == has_disqualifying_char(s@),
{
    let mut i: usize = 0;
    while i < s.len()
        invariant
            i <= s.len(),
            forall|j: int| 0 <= j < i ==> !is_disqualifying_char(#[trigger] s@[j]),
        decreases s.len() - i,
    {
        if is_disqualifying(s[i]) {
            return true;
        }
        i = i + 1;
    }
    false
}

pub(crate) fn utf8_char_len(c: char) -> (n: usize)
    ensures
        n == utf8_len(c),
{
    let v = c as u32;
    if v < 0x80 {
        1
    } else if v < 0x800 {
        2
    } else if v < 0x10000 {
        3
    } else {
        4
    }
}

pub(crate) proof fn lemma_utf8_byte_len_monotone(s: Seq<char>, i: int)
    requires
        0 <= i <= s.len(),
    ensures
        utf8_byte_len(s.take(i)) <= utf8_byte_len(s),
    decreases s.len() - i,
{
    if i < s.len() {
        lemma_utf8_byte_len_monotone(s, i + 1);
        assert(s.take(i + 1).drop_last() =~= s.take(i));
    } else {
        assert(s.take(i) =~= s);
    }
}

fn is_training_sentence_chars(clean: &Vec<char>, context_window_size: usize) -> (b: bool)
    ensures
        b == is_training_sentence(clean@, context_window_size as nat),
{
    if clean.len() >= context_window_size {
        return false;
    }
    let mut bytes: usize = 0;
    let mut has_space = false;
    let mut i: usize = 0;
    while i < clean.len() && bytes <= 10
        invariant
            i <= clean.len(),
            bytes == utf8_byte_len(clean@.take(i as int)),
            has_space <==> clean@.take(i as int).contains(' '),
        decreases clean.len() - i,
    {
        let c = clean[i];
        assert(clean@.take(i + 1).drop_last() =~= clean@.take(i as int));
        bytes = bytes + utf8_char_len(c);
        if c == ' ' {
            has_space = true;
        }
        proof {
            if clean@.take(i + 1).contains(' ') {
                let j = choose|j: int| 0 <= j < i + 1 && #[trigger] clean@.take(i + 1)[j] == ' ';
                if j < i {
                    assert(clean@.take(i as int)[j] == ' ');
                }
            }
            if clean@.take(i as int).contains(' ') {
                let j = choose|j: int| 0 <= j < i && #[trigger] clean@.take(i as int)[j] == ' ';
                assert(clean@.take(i + 1)[j] == ' ');
            }
            if c == ' ' {
                assert(clean@.take(i + 1)[i as int] == ' ');
            }
        }
        i = i + 1;
    }
    if bytes <= 10 {
        assert(clean@.take(i as int) =~= clean@);
        return false;
    }
    proof {
        lemma_utf8_byte_len_monotone(clean@, i as int);
    }
    if has_space {
        proof {
            let j = choose|j: int| 0 <= j < i && #[trigger] clean@.take(i as int)[j] == ' ';
            assert(clean@[j] == ' ');
        }
        return true;
    }
    let mut k: usize = i;
    while k < clean.len()
        invariant
            i <= k <= clean.len(),
            !clean@.take(k as int).contains(' '),
            utf8_byte_len(clean@) > 10,
            clean@.len() < context_window_size,
        decreases clean.len() - k,
    {
        if clean[k] == ' ' {
            assert(clean@[k as int] == ' ');
            return true;
        }
        proof {
            if clean@.take(k + 1).contains(' ') {
                let j = choose|j: int| 0 <= j < k + 1 && #[trigger] clean@.take(k + 1)[j] == ' ';
                if j < k {
                    assert(clean@.take(k as int)[j] == ' ');
                }
            }
        }
        k = k + 1;
    }
    assert(clean@.take(k as int) =~= clean@);
    false
}

// ---------------------------------------------------------------------------
// Set of sentences seen so far
// ---------------------------------------------------------------------------

/// FNV-1a over the code points of `s`; equal sentences get equal hashes.
spec fn sentence_hash(s: Seq<char>) -> u64
    decreases s.len(),
{
    if s.len() == 0 {
        0xcbf2_9ce4_8422_2325u64
    } else {
        (sentence_hash(s.drop_last()) ^ (s.last() as u64)).wrapping_mul(0x0000_0100_0000_01b3u64)
    }
}

fn hash_sentence(s: &Vec<char>) -> (h: u64)
    ensures
        h == sentence_hash(s@),
{
    let mut h: u64 = 0xcbf2_9ce4_8422_2325u64;
    let mut i: usize = 0;
    while i < s.len()
        invariant
            i <= s.len(),
            h == sentence_hash(s@.take(i as int)),
        decreases s.len() - i,
    {
        assert(s@.take(i + 1).drop_last() =~= s@.take(i as int));
        h = (h ^ (s[i] as u64)).wrapping_mul(0x0000_0100_0000_01b3u64);
        i = i + 1;
    }
    assert(s@.take(i as int) =~= s@);
    h
}

/// The sentences accepted so far, with their indices grouped by hash so that
/// a lookup compares only sentences of equal hash.
struct SentenceSet {
    sentences: Vec<String>,
    buckets: HashMap<u64, Vec<usize>>,
}

impl SentenceSet {
    spec fn contents(&self) -> Seq<Seq<char>> {
        string_views(self.sentences@)
    }

    spec fn wf(&self) -> bool {
        &&& forall|i: int|
            #![trigger self.sentences@[i]]
            0 <= i < self.sentences@.len() ==> {
                let h = sentence_hash(self.sentences@[i]@);
                &&& self.buckets@.contains_key(h)
                &&& self.buckets@[h]@.contains(i as usize)
            }
        &&& forall|h: u64, j: int|
            #![trigger self.buckets@[h]@[j]]
            self.buckets@.contains_key(h) && 0 <= j < self.buckets@[h]@.len() ==> {
                &&& self.buckets@[h]@[j] < self.sentences@.len()
                &&& sentence_hash(self.sentences@[self.buckets@[h]@[j] as int]@) == h
            }
    }

    fn new() -> (set: Self)
        ensures
            set.wf(),
            set.contents() == Seq::<Seq<char>>::empty(),
    {
        let set = SentenceSet { sentences: Vec::new(), buckets: HashMap::new() };
        assert(set.contents() =~= Seq::<Seq<char>>::empty());
        set
    }

    fn contains(&self, s: &String, h: u64) -> (found: bool)
        requires
            self.wf(),
            h == sentence_hash(s@),
        ensures
            found == self.contents().contains(s@),
    {
        match self.buckets.get(&h) {
            None => {
                proof {
                    assert(!self.buckets@.contains_key(h));
                    if self.contents().contains(s@) {
                        let i = choose|i: int| 0 <= i < self.contents().len() && #[trigger] self.contents()[i] == s@;
                        assert(self.sentences@[i]@ == s@);
                        assert(self.buckets@.contains_key(sentence_hash(self.sentences@[i]@)));
                        assert(false);
                    }
                }
                assert(!self.contents().contains(s@));
                false
            },
            Some(bucket) => {
                let mut k: usize = 0;
                while k < bucket.len()
                    invariant
                        self.wf(),
                        self.buckets@.contains_key(h),
                        bucket@ == self.buckets@[h]@,
                        k <= bucket.len(),
                        forall|j: int| 0 <= j < k ==> self.sentences@[#[trigger] bucket@[j] as int]@ != s@,
                    decreases bucket.len() - k,
                {
                    let index = bucket[k];
                    assert(self.buckets@[h]@[k as int] == index);
                    if self.sentences[index] == *s {
                        assert(self.contents()[index as int] == s@);
                        return true;
                    }
                    k = k + 1;
                }
                proof {
                    if self.contents().contains(s@) {
                        let i = choose|i: int| 0 <= i < self.contents().len() && #[trigger] self.contents()[i] == s@;
                        assert(self.sentences@[i]@ == s@);
                        assert(0 <= i < self.sentences.len());
                        assert(sentence_hash(self.sentences@[i]@) == h);
                        assert(self.buckets@[h]@.contains(i as usize));
                        assert(bucket@.contains(i as usize));
                        let j = choose|j: int| 0 <= j < bucket@.len() && #[trigger] bucket@[j] == i as usize;
                        assert(self.sentences@[bucket@[j] as int]@ != s@);
                        assert(false);
                    }
                }
                assert(!self.contents().contains(s@));
                false
            },
        }
    }

    fn insert(&mut self, s: String, h: u64)
        requires
            old(self).wf(),
            h == sentence_hash(s@),
        ensures
            final(self).wf(),
            final(self).contents() == old(self).contents().push(s@),
    {
        let index = self.sentences.len();
        let mut bucket = match self.buckets.remove(&h) {
            Some(b) => b,
            None => Vec::new(),
        };
        let ghost old_bucket = bucket@;
        bucket.push(index);
        self.sentences.push(s);
        self.buckets.insert(h, bucket);
        proof {
            assert(self.contents() =~= old(self).contents().push(s@));
            assert forall|i: int|
                #![trigger self.sentences@[i]]
                0 <= i < self.sentences@.len() implies {
                    let hi = sentence_hash(self.sentences@[i]@);
                    &&& self.buckets@.contains_key(hi)
                    &&& self.buckets@[hi]@.contains(i as usize)
                } by {
                let hi = sentence_hash(self.sentences@[i]@);
                if i == index {
                    assert(self.buckets@[h]@[old_bucket.len() as int] == index);
                } else {
                    assert(old(self).sentences@[i] == self.sentences@[i]);
                    assert(old(self).buckets@[hi]@.contains(i as usize));
                    if hi == h {
                        let j = choose|j: int| 0 <= j < old(self).buckets@[hi]@.len() && #[trigger] old(self).buckets@[hi]@[j] == i as usize;
                        assert(self.buckets@[h]@[j] == i as usize);
                    } else {
                        assert(self.buckets@[hi] == old(self).buckets@[hi]);
                    }
                }
            }
            assert forall|hk: u64, j: int|
                #![trigger self.buckets@[hk]@[j]]
                self.buckets@.contains_key(hk) && 0 <= j < self.buckets@[hk]@.len() implies {
                    &&& self.buckets@[hk]@[j] < self.sentences@.len()
                    &&& sentence_hash(self.sentences@[self.buckets@[hk]@[j] as int]@) == hk
                } by {
                if hk == h {
                    if j < old_bucket.len() {
                        assert(old(self).buckets@[h]@[j] == self.buckets@[hk]@[j]);
                    }
                } else {
                    assert(self.buckets@[hk] == old(self).buckets@[hk]);
                    assert(old(self).buckets@[hk]@[j] == self.buckets@[hk]@[j]);
                }
            }
        }
    }
}

// ---------------------------------------------------------------------------
// Grouping sentences by story
// ---------------------------------------------------------------------------

proof fn lemma_accepted_at_most_limit(pieces: Seq<Seq<char>>, seen: Seq<Seq<char>>, limit: nat, ctx: nat)
    ensures
        accepted_sentences(pieces, seen, limit, ctx).len() <= limit,
        pieces.len() > 0 ==> accepted_sentences(pieces.drop_last(), seen, limit, ctx).len()
            <= accepted_sentences(pieces, seen, limit, ctx).len(),
    decreases pieces.len(),
{
    if pieces.len() > 0 {
        lemma_accepted_at_most_limit(pieces.drop_last(), seen, limit, ctx);
    }
}

/// Once `limit` sentences are kept, later pieces change nothing.
proof fn lemma_accepted_full(pieces: Seq<Seq<char>>, seen: Seq<Seq<char>>, limit: nat, ctx: nat, j: int)
    requires
        0 <= j <= pieces.len(),
        accepted_sentences(pieces.take(j), seen, limit, ctx).len() >= limit,
    ensures
        accepted_sentences(pieces, seen, limit, ctx) == accepted_sentences(pieces.take(j), seen, limit, ctx),
    decreases pieces.len() - j,
{
    if j < pieces.len() {
        assert(pieces.take(j + 1).drop_last() =~= pieces.take(j));
        lemma_accepted_at_most_limit(pieces.take(j + 1), seen, limit, ctx);
        lemma_accepted_full(pieces, seen, limit, ctx, j + 1);
    } else {
        assert(pieces.take(j) =~= pieces);
    }
}

proof fn lemma_contains_concat(a: Seq<Seq<char>>, b: Seq<Seq<char>>, x: Seq<char>)
    ensures
        (a + b).contains(x) <==> a.contains(x) || b.contains(x),
{
    if (a + b).contains(x) {
        let i = choose|i: int| 0 <= i < (a + b).len() && #[trigger] (a + b)[i] == x;
        if i < a.len() {
            assert(a[i] == x);
        } else {
            assert(b[i - a.len()] == x);
        }
    }
    if a.contains(x) {
        let i = choose|i: int| 0 <= i < a.len() && #[trigger] a[i] == x;
        assert((a + b)[i] == x);
    }
    if b.contains(x) {
        let i = choose|i: int| 0 <= i < b.len() && #[trigger] b[i] == x;
        assert((a + b)[a.len() + i] == x);
    }
}

/// Keeps the sentences of one story that enter the training data and adds
/// them to `seen`.
fn accept_story_sentences(
    pieces: &Vec<String>,
    seen: &mut SentenceSet,
    limit: usize,
    context_window_size: usize,
) -> (kept: Vec<String>)
    requires
        old(seen).wf(),
    ensures
        final(seen).wf(),
        string_views(kept@) == accepted_sentences(
            string_views(pieces@),
            old(seen).contents(),
            limit as nat,
            context_window_size as nat,
        ),
        final(seen).contents() == old(seen).contents() + string_views(kept@),
{
    let ghost all = string_views(pieces@);
    let ghost seen0 = seen.contents();
    let mut kept: Vec<String> = Vec::new();
    let mut j: usize = 0;
    while j < pieces.len() && kept.len() < limit
        invariant
            j <= pieces.len(),
            all == string_views(pieces@),
            seen.wf(),
            string_views(kept@) == accepted_sentences(all.take(j as int), seen0, limit as nat, context_window_size as nat),
            seen.contents() == seen0 + string_views(kept@),
        decreases pieces.len() - j,
    {
        let ghost before = string_views(kept@);
        assert(all.take(j + 1).drop_last() =~= all.take(j as int));
        assert(all.take(j + 1).last() == pieces@[j as int]@);
        let piece = chars_of(pieces[j].as_str());
        if !contains_disqualifying_char(&piece) {
            let clean = clean_sentence_chars(&piece);
            if is_training_sentence_chars(&clean, context_window_size) {
                let h = hash_sentence(&clean);
                let sentence = string_from_chars(&clean);
                proof {
                    lemma_contains_concat(seen0, before, clean@);
                }
                if !seen.contains(&sentence, h) {
                    let copy = sentence.clone();
                    seen.insert(copy, h);
                    kept.push(sentence);
                    assert(string_views(kept@) =~= before.push(clean@));
                    assert(seen.contents() =~= seen0 + string_views(kept@));
                }
            }
        }
        j = j + 1;
    }
    proof {
        if j < pieces.len() {
            lemma_accepted_full(all, seen0, limit as nat, context_window_size as nat, j as int);
        } else {
            assert(all.take(j as int) =~= all);
        }
    }
    kept
}

/// Cuts every story written by GPT-4 into sentences and keeps, per story,
/// the sentences free of disqualifying characters that, once cleaned, are
/// more than ten bytes long, hold a space and fit the context window; a
/// sentence already kept is not kept again, stories left without a sentence
/// are dropped, and no more than `max_document_count` sentences are kept.
pub fn stories_to_sentence_groups(
    stories: Vec<Story>,
    training_run_config: TrainingRunConfig,
) -> (groups: Vec<TrainingStoryDocuments>)
    ensures
        group_views(groups@) == sentence_groups(
            stories@,
            training_run_config.max_document_count as nat,
            training_run_config.context_window_size as nat,
        ),
{
    broadcast use Seq::lemma_flatten_push;
    let max_document_count = training_run_config.max_document_count;
    let context_window_size = training_run_config.context_window_size;
    let ghost max = max_document_count as nat;
    let ghost ctx = context_window_size as nat;
    let written_by = String::from_str("GPT-4");
    let mut total_document_count: usize = 0;
    let mut seen = SentenceSet::new();
    let mut groups: Vec<TrainingStoryDocuments> = Vec::new();
    let mut i: usize = 0;
    while i < stories.len() && total_document_count < max_document_count
        invariant
            i <= stories.len(),
            written_by@ == "GPT-4"@,
            max == max_document_count,
            ctx == context_window_size,
            seen.wf(),
            group_views(groups@) == sentence_groups(stories@.take(i as int), max, ctx),
            seen.contents() == group_views(groups@).flatten(),
            total_document_count == seen.contents().len(),
            total_document_count <= max_document_count,
        decreases stories.len() - i,
    {
        assert(stories@.take(i + 1).drop_last() =~= stories@.take(i as int));
        let story = &stories[i];
        if story.source == written_by {
            let pieces = split_sentences_keep_punctuation(story.story.as_str());
            let remaining = max_document_count - total_document_count;
            let ghost seen_before = seen.contents();
            let ghost groups_before = group_views(groups@);
            let kept = accept_story_sentences(&pieces, &mut seen, remaining, context_window_size);
            proof {
                lemma_accepted_at_most_limit(string_views(pieces@), seen_before, remaining as nat, ctx);
            }
            if kept.len() > 0 {
                let ghost kept_view = string_views(kept@);
                total_document_count = total_document_count + kept.len();
                groups.push(TrainingStoryDocuments { sentences: kept });
                assert(group_views(groups@) =~= groups_before.push(kept_view));
                proof {
                    groups_before.lemma_flatten_push(kept_view);
                }
            } else {
                assert(string_views(kept@) =~= Seq::<Seq<char>>::empty());
                assert(seen.contents() =~= seen_before);
            }
        }
        i = i + 1;
    }
    proof {
        if i < stories.len() {
            lemma_groups_full(stories@, max, ctx, i as int);
        } else {
            assert(stories@.take(i as int) =~= stories@);
        }
    }
    groups
}

proof fn lemma_groups_total_grows(stories: Seq<Story>, max: nat, ctx: nat)
    ensures
        stories.len() > 0 ==> sentence_groups(stories.drop_last(), max, ctx).flatten().len()
            <= sentence_groups(stories, max, ctx).flatten().len(),
{
    broadcast use Seq::lemma_flatten_push;
}

/// Once `max` sentences are kept, later stories change nothing.
proof fn lemma_groups_full(stories: Seq<Story>, max: nat, ctx: nat, j: int)
    requires
        0 <= j <= stories.len(),
        sentence_groups(stories.take(j), max, ctx).flatten().len() >= max,
    ensures
        sentence_groups(stories, max, ctx) == sentence_groups(stories.take(j), max, ctx),
    decreases stories.len() - j,
{
    if j < stories.len() {
        assert(stories.take(j + 1).drop_last() =~= stories.take(j));
        lemma_groups_total_grows(stories.take(j + 1), max, ctx);
        lemma_groups_full(stories, max, ctx, j + 1);
    } else {
        assert(stories.take(j) =~= stories);
    }
}

proof fn lemma_accepted_sentences_fresh(pieces: Seq<Seq<char>>, seen: Seq<Seq<char>>, limit: nat, ctx: nat)
    ensures
        ({
            let kept = accepted_sentences(pieces, seen, limit, ctx);
            &&& kept.no_duplicates()
            &&& forall|k: int| 0 <= k < kept.len() ==> !seen.contains(#[trigger] kept[k]) && is_training_sentence(kept[k], ctx)
        }),
    decreases pieces.len(),
{
    if pieces.len() > 0 {
        lemma_accepted_sentences_fresh(pieces.drop_last(), seen, limit, ctx);
        let kept = accepted_sentences(pieces.drop_last(), seen, limit, ctx);
        let clean = clean_sentence(pieces.last());
        let now = accepted_sentences(pieces, seen, limit, ctx);
        if now != kept {
            assert(now == kept.push(clean));
            assert forall|a: int, b: int| 0 <= a < now.len() && 0 <= b < now.len() && a != b implies now[a] != now[b] by {
                if a < kept.len() && b < kept.len() {
                } else if a < kept.len() {
                    assert(kept.contains(now[a]));
                } else {
                    assert(kept.contains(now[b]));
                }
            }
            assert forall|k: int| 0 <= k < now.len() implies !seen.contains(#[trigger] now[k]) && is_training_sentence(now[k], ctx) by {
                if k < kept.len() {
                    assert(now[k] == kept[k]);
                }
            }
        }
    }
}

/// What the sentence groups promise: every group holds at least one
/// sentence, no sentence occurs twice over all groups, there are at most
/// `max_document_count` sentences in all, and each is a cleaned sentence of
/// more than ten bytes that holds a space and fits the context window.
pub proof fn lemma_sentence_groups_properties(stories: Seq<Story>, max_document_count: nat, context_window_size: nat)
    ensures
        ({
            let groups = sentence_groups(stories, max_document_count, context_window_size);
            &&& forall|g: int| 0 <= g < groups.len() ==> #[trigger] groups[g].len() > 0
            &&& groups.flatten().no_duplicates()
            &&& groups.flatten().len() <= max_document_count
            &&& forall|k: int| 0 <= k < groups.flatten().len() ==> {
                let sentence = #[trigger] groups.flatten()[k];
                &&& utf8_byte_len(sentence) > 10
                &&& sentence.contains(' ')
                &&& sentence.len() < context_window_size
            }
        }),
    decreases stories.len(),
{
    broadcast use Seq::lemma_flatten_push;
    if stories.len() > 0 {
        let max = max_document_count;
        let ctx = context_window_size;
        lemma_sentence_groups_properties(stories.drop_last(), max, ctx);
        let groups = sentence_groups(stories.drop_last(), max, ctx);
        let story = stories.last();
        let total = groups.flatten().len();
        if !(story.source@ != "GPT-4"@ || total >= max) {
            let kept = accepted_sentences(split_sentences(story.story@), groups.flatten(), (max - total) as nat, ctx);
            if kept.len() > 0 {
                lemma_accepted_sentences_fresh(split_sentences(story.story@), groups.flatten(), (max - total) as nat, ctx);
                lemma_accepted_at_most_limit(split_sentences(story.story@), groups.flatten(), (max - total) as nat, ctx);
                let all = groups.push(kept);
                let flat = groups.flatten() + kept;
                assert(all.flatten() == flat);
                assert forall|g: int| 0 <= g < all.len() implies #[trigger] all[g].len() > 0 by {
                    if g < groups.len() {
                        assert(all[g] == groups[g]);
                    }
                }
                assert forall|a: int, b: int| 0 <= a < flat.len() && 0 <= b < flat.len() && a != b implies flat[a] != flat[b] by {
                    let n = groups.flatten().len() as int;
                    if a < n && b < n {
                        assert(flat[a] == groups.flatten()[a] && flat[b] == groups.flatten()[b]);
                    } else if a >= n && b >= n {
                        assert(flat[a] == kept[a - n] && flat[b] == kept[b - n]);
                    } else if a < n {
                        assert(flat[b] == kept[b - n]);
                        assert(groups.flatten().contains(flat[a]));
                    } else {
                        assert(flat[a] == kept[a - n]);
                        assert(groups.flatten().contains(flat[b]));
                    }
                }
                assert forall|k: int| 0 <= k < flat.len() implies is_training_sentence(#[trigger] flat[k], ctx) by {
                    let n = groups.flatten().len() as int;
                    if k < n {
                        assert(flat[k] == groups.flatten()[k]);
                    } else {
                        assert(flat[k] == kept[k - n]);
                    }
                }
            }
        }
    }
}

/// Every character of `t` occurs in `s`.
spec fn chars_from(t: Seq<char>, s: Seq<char>) -> bool {
    forall|i: int| 0 <= i < t.len() ==> s.contains(#[trigger] t[i])
}

proof fn lemma_trim_start_chars(s: Seq<char>)
    ensures
        chars_from(trim_start(s), s),
    decreases s.len(),
{
    if s.len() > 0 && is_unicode_whitespace(s[0]) {
        let rest = s.drop_first();
        lemma_trim_start_chars(rest);
        assert forall|i: int| 0 <= i < trim_start(s).len() implies s.contains(#[trigger] trim_start(s)[i]) by {
            let j = choose|j: int| 0 <= j < rest.len() && rest[j] == trim_start(s)[i];
            assert(s[j + 1] == rest[j]);
        }
    } else {
        assert forall|i: int| 0 <= i < trim_start(s).len() implies s.contains(#[trigger] trim_start(s)[i]) by {
            assert(s[i] == trim_start(s)[i]);
        }
    }
}

proof fn lemma_trim_end_chars(s: Seq<char>)
    ensures
        chars_from(trim_end(s), s),
    decreases s.len(),
{
    if s.len() > 0 && is_unicode_whitespace(s.last()) {
        let rest = s.drop_last();
        lemma_trim_end_chars(rest);
        assert forall|i: int| 0 <= i < trim_end(s).len() implies s.contains(#[trigger] trim_end(s)[i]) by {
            let j = choose|j: int| 0 <= j < rest.len() && rest[j] == trim_end(s)[i];
            assert(s[j] == rest[j]);
        }
    } else {
        assert forall|i: int| 0 <= i < trim_end(s).len() implies s.contains(#[trigger] trim_end(s)[i]) by {
            assert(s[i] == trim_end(s)[i]);
        }
    }
}

/// A cleaned sentence holds only spaces and characters of the piece it was
/// cleaned from.
proof fn lemma_clean_sentence_chars(piece: Seq<char>)
    ensures
        forall|i: int| 0 <= i < clean_sentence(piece).len() ==> #[trigger] clean_sentence(piece)[i] == ' '
            || piece.contains(clean_sentence(piece)[i]),
{
    let replaced = replace_newlines(piece);
    let started = trim_start(replaced);
    lemma_trim_start_chars(replaced);
    lemma_trim_end_chars(started);
    let clean = clean_sentence(piece);
    assert forall|i: int| 0 <= i < clean.len() implies #[trigger] clean[i] == ' ' || piece.contains(clean[i]) by {
        assert(started.contains(clean[i]));
        let j = choose|j: int| 0 <= j < started.len() && started[j] == clean[i];
        assert(replaced.contains(started[j]));
        let k = choose|k: int| 0 <= k < replaced.len() && replaced[k] == started[j];
        if piece[k] != '\n' {
            assert(replaced[k] == piece[k]);
        }
    }
}

proof fn lemma_accepted_sentences_clean(pieces: Seq<Seq<char>>, seen: Seq<Seq<char>>, limit: nat, ctx: nat)
    ensures
        ({
            let kept = accepted_sentences(pieces, seen, limit, ctx);
            forall|k: int, j: int| 0 <= k < kept.len() && 0 <= j < kept[k].len() ==> !is_disqualifying_char(
                #[trigger] kept[k][j],
            )
        }),
    decreases pieces.len(),
{
    if pieces.len() > 0 {
        lemma_accepted_sentences_clean(pieces.drop_last(), seen, limit, ctx);
        let kept = accepted_sentences(pieces.drop_last(), seen, limit, ctx);
        let piece = pieces.last();
        let clean = clean_sentence(piece);
        let now = accepted_sentences(pieces, seen, limit, ctx);
        if now != kept {
            assert(now == kept.push(clean));
            assert(!has_disqualifying_char(piece));
            lemma_clean_sentence_chars(piece);
            assert forall|k: int, j: int| 0 <= k < now.len() && 0 <= j < now[k].len() implies !is_disqualifying_char(
                #[trigger] now[k][j],
            ) by {
                if k < kept.len() {
                    assert(now[k] == kept[k]);
                } else {
                    assert(now[k] == clean);
                    if clean[j] != ' ' {
                        let m = choose|m: int| 0 <= m < piece.len() && piece[m] == clean[j];
                        assert(!is_disqualifying_char(piece[m]));
                    }
                }
            }
        }
    }
}

proof fn lemma_sentence_groups_clean(stories: Seq<Story>, max: nat, ctx: nat)
    ensures
        ({
            let flat = sentence_groups(stories, max, ctx).flatten();
            forall|k: int, j: int| 0 <= k < flat.len() && 0 <= j < flat[k].len() ==> !is_disqualifying_char(
                #[trigger] flat[k][j],
            )
        }),
    decreases stories.len(),
{
    broadcast use Seq::lemma_flatten_push;
    if stories.len() > 0 {
        lemma_sentence_groups_clean(stories.drop_last(), max, ctx);
        let groups = sentence_groups(stories.drop_last(), max, ctx);
        let story = stories.last();
        let total = groups.flatten().len();
        if !(story.source@ != "GPT-4"@ || total >= max) {
            let kept = accepted_sentences(split_sentences(story.story@), groups.flatten(), (max - total) as nat, ctx);
            if kept.len() > 0 {
                lemma_accepted_sentences_clean(split_sentences(story.story@), groups.flatten(), (max - total) as nat, ctx);
                let flat = groups.flatten() + kept;
                assert(groups.push(kept).flatten() == flat);
                let n = groups.flatten().len() as int;
                assert forall|k: int, j: int| 0 <= k < flat.len() && 0 <= j < flat[k].len() implies !is_disqualifying_char(
                    #[trigger] flat[k][j],
                ) by {
                    if k < n {
                        assert(flat[k] == groups.flatten()[k]);
                    } else {
                        assert(flat[k] == kept[k - n]);
                    }
                }
            }
        }
    }
}

/// No training sentence holds a disqualifying character: none of
/// $ & " “ ” ( ) * ' _ - – … % ~ backtick [ ] { } backslash ; | — é / ’ ‘ :
/// and no digit 0 to 9 occurs in any sentence of the sentence groups.
pub proof fn lemma_sentence_groups_free_of_disqualifying_characters(
    stories: Seq<Story>,
    max_document_count: nat,
    context_window_size: nat,
)
    ensures
        ({
            let flat = sentence_groups(stories, max_document_count, context_window_size).flatten();
            forall|k: int, j: int| 0 <= k < flat.len() && 0 <= j < flat[k].len() ==> {
                let c = #[trigger] flat[k][j];
                &&& c != '$' && c != '&' && c != '"' && c != '\u{201c}' && c != '\u{201d}'
                &&& c != '(' && c != ')' && c != '*' && c != '\'' && c != '_' && c != '-'
                &&& c != '\u{2013}' && c != '\u{2026}' && c != '%' && c != '~' && c != '`'
                &&& c != '[' && c != ']' && c != '{' && c != '}' && c != '\\' && c != ';'
                &&& c != '|' && c != '\u{2014}' && c != '\u{e9}' && c != '/' && c != '\u{2019}'
                &&& c != '\u{2018}' && c != ':'
                &&& c != '0' && c != '1' && c != '2' && c != '3' && c != '4'
                &&& c != '5' && c != '6' && c != '7' && c != '8' && c != '9'
            }
        }),
{
    lemma_sentence_groups_clean(stories, max_document_count, context_window_size);
}

// ---------------------------------------------------------------------------
// Training and validation documents
// ---------------------------------------------------------------------------

/// Appends copies of the sentences of `story` to `out`.
fn append_story_sentences(out: &mut Vec<String>, story: &TrainingStoryDocuments)
    ensures
        string_views(final(out)@) == string_views(old(out)@) + string_views(story.sentences@),
{
    let ghost start = string_views(out@);
    let mut k: usize = 0;
    while k < story.sentences.len()
        invariant
            k <= story.sentences.len(),
            string_views(out@) == start + string_views(story.sentences@).take(k as int),
        decreases story.sentences.len() - k,
    {
        let sentence = story.sentences[k].clone();
        assert(sentence@ == story.sentences@[k as int]@);
        let ghost before = out@;
        out.push(sentence);
        assert(string_views(out@) =~= string_views(before).push(sentence@));
        k = k + 1;
        assert(string_views(out@) =~= start + string_views(story.sentences@).take(k as int));
    }
    assert(string_views(story.sentences@).take(k as int) =~= string_views(story.sentences@));
}

/// All sentences of the stories, story after story.
pub fn flatten_story_sentences(stories: &[TrainingStoryDocuments]) -> (sentences: Vec<String>)
    ensures
        string_views(sentences@) == group_views(stories@).flatten(),
{
    broadcast use Seq::lemma_flatten_push;
    let mut sentences: Vec<String> = Vec::new();
    let mut i: usize = 0;
    while i < stories.len()
        invariant
            i <= stories@.len(),
            string_views(sentences@) == group_views(stories@.take(i as int)).flatten(),
        decreases stories@.len() - i,
    {
        append_story_sentences(&mut sentences, &stories[i]);
        assert(group_views(stories@.take(i + 1)) =~= group_views(stories@.take(i as int)).push(string_views(stories@[i as int].sentences@)));
        proof {
            group_views(stories@.take(i as int)).lemma_flatten_push(string_views(stories@[i as int].sentences@));
        }
        i = i + 1;
    }
    assert(stories@.take(i as int) =~= stories@);
    sentences
}

/// The sentences of the stories at the given positions, one group per story.
pub open spec fn stories_in_order(stories: Seq<TrainingStoryDocuments>, order: Seq<usize>) -> Seq<Seq<Seq<char>>> {
    order.map_values(|i: usize| string_views(stories[i as int].sentences@))
}

/// The documents a session trains on and the documents it is validated on.
#[derive(Clone, Debug)]
pub struct TrainingDocumentSplit {
    pub documents: Vec<String>,
    pub validation_documents: Vec<String>,
}

/// Shuffles the stories and gives the first `stories.len() / validation_set_divisor`
/// of them to validation and the rest to training, so that the sentences of
/// one story never end up on both sides.
pub fn split_training_validation_stories(
    stories: &Vec<TrainingStoryDocuments>,
    rng: &mut ChaCha8Rng,
    validation_set_divisor: usize,
) -> (split: TrainingDocumentSplit)
    requires
        validation_set_divisor > 0,
    ensures
        exists|draws: Seq<usize>|
            #![trigger fisher_yates_draws(draws, stories@.len())]
            fisher_yates_draws(draws, stories@.len()) && {
                let order = fisher_yates(stories@.len(), draws);
                let validation_story_count = stories@.len() / validation_set_divisor as nat;
                &&& string_views(split.validation_documents@) == stories_in_order(
                    stories@,
                    order.take(validation_story_count as int),
                ).flatten()
                &&& string_views(split.documents@) == stories_in_order(
                    stories@,
                    order.skip(validation_story_count as int),
                ).flatten()
            },
{
    broadcast use Seq::lemma_flatten_push;
    let n = stories.len();
    let order = shuffled_indices(n, rng);
    let validation_story_count = n / validation_set_divisor;
    let mut validation_documents: Vec<String> = Vec::new();
    let mut k: usize = 0;
    while k < validation_story_count
        invariant
            k <= validation_story_count <= n,
            n == stories@.len(),
            is_index_permutation(order@, n as nat),
            string_views(validation_documents@) == stories_in_order(stories@, order@.take(k as int)).flatten(),
        decreases validation_story_count - k,
    {
        append_story_sentences(&mut validation_documents, &stories[order[k]]);
        assert(stories_in_order(stories@, order@.take(k + 1)) =~= stories_in_order(stories@, order@.take(k as int)).push(string_views(stories@[order@[k as int] as int].sentences@)));
        proof {
            stories_in_order(stories@, order@.take(k as int)).lemma_flatten_push(string_views(stories@[order@[k as int] as int].sentences@));
        }
        k = k + 1;
    }
    let mut documents: Vec<String> = Vec::new();
    let mut m: usize = validation_story_count;
    while m < n
        invariant
            validation_story_count <= m <= n,
            n == stories@.len(),
            is_index_permutation(order@, n as nat),
            string_views(documents@) == stories_in_order(
                stories@,
                order@.subrange(validation_story_count as int, m as int),
            ).flatten(),
        decreases n - m,
    {
        append_story_sentences(&mut documents, &stories[order[m]]);
        assert(stories_in_order(stories@, order@.subrange(validation_story_count as int, m + 1)) =~= stories_in_order(stories@, order@.subrange(validation_story_count as int, m as int)).push(string_views(stories@[order@[m as int] as int].sentences@)));
        proof {
            stories_in_order(stories@, order@.subrange(validation_story_count as int, m as int)).lemma_flatten_push(string_views(stories@[order@[m as int] as int].sentences@));
        }
        m = m + 1;
    }
    assert(order@.subrange(validation_story_count as int, n as int) =~= order@.skip(validation_story_count as int));
    let ghost draws = choose|draws: Seq<usize>|
        #![trigger fisher_yates_draws(draws, n as nat)]
        fisher_yates_draws(draws, n as nat) && order@ == fisher_yates(n as nat, draws);
    assert(fisher_yates_draws(draws, stories@.len()));
    TrainingDocumentSplit { documents, validation_documents }
}

// ---------------------------------------------------------------------------
// Every sentence ends up on exactly one side of the split
// ---------------------------------------------------------------------------

pub(crate) proof fn lemma_flatten_concat<A>(a: Seq<Seq<A>>, b: Seq<Seq<A>>)
    ensures
        (a + b).flatten() == a.flatten() + b.flatten(),
    decreases b.len(),
{
    if b.len() == 0 {
        assert(a + b =~= a);
        assert(a.flatten() + b.flatten() =~= a.flatten());
    } else {
        lemma_flatten_concat(a, b.drop_last());
        assert(a + b =~= (a + b.drop_last()).push(b.last()));
        assert(b =~= b.drop_last().push(b.last()));
        (a + b.drop_last()).lemma_flatten_push(b.last());
        b.drop_last().lemma_flatten_push(b.last());
        assert((a.flatten() + b.drop_last().flatten()) + b.last() =~= a.flatten() + (b.drop_last().flatten() + b.last()));
    }
}

/// The items of all groups, counted with multiplicity.
pub(crate) open spec fn flat_multiset<A>(groups: Seq<Seq<A>>) -> Multiset<A> {
    groups.flatten().to_multiset()
}

proof fn lemma_flat_multiset_remove<A>(groups: Seq<Seq<A>>, m: int)
    requires
        0 <= m < groups.len(),
    ensures
        flat_multiset(groups) == flat_multiset(groups.remove(m)).add(groups[m].to_multiset()),
{
    broadcast use vstd::seq_lib::lemma_multiset_commutative;
    let front = groups.take(m);
    let back = groups.skip(m + 1);
    assert(groups =~= front + seq![groups[m]] + back);
    assert(groups.remove(m) =~= front + back);
    lemma_flatten_concat(front + seq![groups[m]], back);
    lemma_flatten_concat(front, seq![groups[m]]);
    lemma_flatten_concat(front, back);
    seq![groups[m]].lemma_flatten_one_element();
    vstd::seq_lib::lemma_multiset_commutative(front.flatten() + groups[m], back.flatten());
    vstd::seq_lib::lemma_multiset_commutative(front.flatten(), groups[m]);
    vstd::seq_lib::lemma_multiset_commutative(front.flatten(), back.flatten());
    assert(flat_multiset(groups) =~= flat_multiset(groups.remove(m)).add(groups[m].to_multiset()));
}

/// The groups at the given positions, in that order.
pub(crate) open spec fn permuted<A>(order: Seq<usize>, groups: Seq<Seq<A>>) -> Seq<Seq<A>> {
    order.map_values(|i: usize| groups[i as int])
}

/// Rearranging groups leaves the items they hold, counted with
/// multiplicity, unchanged.
pub(crate) proof fn lemma_permuted_flat_multiset<A>(order: Seq<usize>, groups: Seq<Seq<A>>)
    requires
        is_index_permutation(order, groups.len()),
    ensures
        flat_multiset(permuted(order, groups)) == flat_multiset(groups),
    decreases groups.len(),
{
    broadcast use Seq::lemma_flatten_push;
    broadcast use vstd::seq_lib::lemma_multiset_commutative;
    let n = groups.len();
    if n == 0 {
        assert(permuted(order, groups) =~= groups);
    } else {
        let m = order.last();
        let rest = order.drop_last();
        let shifted = rest.map_values(|i: usize| if i > m { (i - 1) as usize } else { i });
        let smaller = groups.remove(m as int);
        assert forall|k: int| 0 <= k < rest.len() implies #[trigger] rest[k] != m by {
            assert(order[k] != order[n - 1]);
        }
        assert forall|a: int, b: int| 0 <= a < shifted.len() && 0 <= b < shifted.len() && a != b implies shifted[a] != shifted[b] by {
            assert(order[a] != order[b]);
            assert(rest[a] != m && rest[b] != m);
        }
        assert forall|k: int| 0 <= k < (n - 1) as nat implies #[trigger] shifted[k] < (n - 1) as nat by {
            assert(order[k] < n);
            assert(rest[k] != m);
        }
        assert(is_index_permutation(shifted, smaller.len()));
        lemma_permuted_flat_multiset(shifted, smaller);
        assert(permuted(shifted, smaller) =~= permuted(rest, groups)) by {
            assert forall|k: int| 0 <= k < rest.len() implies permuted(shifted, smaller)[k] == #[trigger] permuted(rest, groups)[k] by {
                assert(rest[k] != m);
            }
        }
        assert(permuted(order, groups) =~= permuted(rest, groups).push(groups[m as int]));
        vstd::seq_lib::lemma_multiset_commutative(permuted(rest, groups).flatten(), groups[m as int]);
        lemma_flat_multiset_remove(groups, m as int);
    }
}

/// The documents of a split, validation first, hold every sentence of the
/// stories exactly as often as the stories do: whichever order the shuffle
/// picks and wherever the split falls, no sentence is lost or repeated.
pub proof fn lemma_split_keeps_every_sentence(stories: Seq<TrainingStoryDocuments>, order: Seq<usize>, k: int)
    requires
        is_index_permutation(order, stories.len()),
        0 <= k <= stories.len(),
    ensures
        (stories_in_order(stories, order.take(k)).flatten() + stories_in_order(stories, order.skip(k)).flatten()).to_multiset()
            == group_views(stories).flatten().to_multiset(),
{
    let groups = group_views(stories);
    lemma_flatten_concat(stories_in_order(stories, order.take(k)), stories_in_order(stories, order.skip(k)));
    assert(stories_in_order(stories, order.take(k)) + stories_in_order(stories, order.skip(k)) =~= permuted(order, groups));
    lemma_permuted_flat_multiset(order, groups);
}

} // verus!
