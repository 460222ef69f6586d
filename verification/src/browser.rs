use vstd::prelude::*;
use crate::random::random_index_through;
use crate::sampling::lowercase_string;
use rand_chacha::ChaCha8Rng;
use crate::stories::{lemma_utf8_byte_len_monotone, trim_chars, trim_whitespace, utf8_byte_len, utf8_char_len};
use crate::text::{chars_of, is_unicode_whitespace, is_whitespace_char, str_to_lowercase, string_from_chars};

verus! {

// ---------------------------------------------------------------------------
// Which documents the browser shows
// ---------------------------------------------------------------------------

/// The document set the browser lists.
#[derive(Clone, Copy, Debug, PartialEq, Eq, Structural)]
pub enum DocumentBrowserDataset {
    Training,
    Validation,
}

impl DocumentBrowserDataset {
    /// The name of the document set.
    pub fn label(self) -> (label: &'static str)
        ensures
            label@ == (match self {
                DocumentBrowserDataset::Training => "Training"@,
                DocumentBrowserDataset::Validation => "Validation"@,
            }),
    {
        match self {
            DocumentBrowserDataset::Training => "Training",
            DocumentBrowserDataset::Validation => "Validation",
        }
    }

    /// The other document set.
    pub fn toggled(self) -> (other: Self)
        ensures
            other != self,
    {
        match self {
            DocumentBrowserDataset::Training => DocumentBrowserDataset::Validation,
            DocumentBrowserDataset::Validation => DocumentBrowserDataset::Training,
        }
    }
}

/// The number of browser pages for `document_count` documents.
pub fn document_page_count(document_count: usize) -> (pages: usize)
    ensures
        pages == (document_count + 9) / 10,
{
    let q = document_count / 10;
    let r = document_count % 10;
    proof {
        let n = document_count as int;
        vstd::arithmetic::div_mod::lemma_fundamental_div_mod(n, 10);
        let qi = q as int;
        let ri = r as int;
        assert((n + 9) / 10 == qi + (if ri != 0 { 1int } else { 0int })) by (nonlinear_arith)
            requires
                n == 10 * qi + ri,
                0 <= ri < 10,
        ;
    }
    q + if r != 0 { 1 } else { 0 }
}

/// The position of the first document on browser page `page` of `len`
/// documents; a page past the end is read as the last page.
pub open spec fn page_start(len: int, page: int) -> int {
    let pages = (len + 9) / 10;
    let last_page = if pages == 0 { 0 } else { pages - 1 };
    (if page < last_page { page } else { last_page }) * 10
}

/// The position after the last document on the page that starts at `start`.
pub open spec fn page_end(len: int, start: int) -> int {
    if start + 10 < len { start + 10 } else { len }
}

/// The documents on browser page `page` with their positions; a page past
/// the end shows the last page.
pub fn visible_page_documents(documents: &[String], page: usize) -> (visible: Vec<(usize, String)>)
    ensures
        visible@.len() == page_end(documents@.len() as int, page_start(documents@.len() as int, page as int))
            - page_start(documents@.len() as int, page as int),
        forall|k: int| #![trigger visible@[k]] 0 <= k < visible@.len() ==>
            visible@[k].0 == page_start(documents@.len() as int, page as int) + k
            && visible@[k].1@ == documents@[page_start(documents@.len() as int, page as int) + k]@,
{
    let pages = document_page_count(documents.len());
    let last_page = if pages == 0 { 0 } else { pages - 1 };
    let page_index = if page < last_page { page } else { last_page };
    proof {
        let n = documents@.len() as int;
        let p = page_index as int;
        assert(p * 10 <= n) by (nonlinear_arith)
            requires
                pages == (n + 9) / 10,
                p <= (if pages == 0 { 0 } else { pages - 1 }),
                n >= 0,
        ;
    }
    let start = page_index * 10;
    let end = if documents.len() - start > 10 { start + 10 } else { documents.len() };
    let ghost len = documents@.len() as int;
    assert(start == page_start(len, page as int));
    assert(end == page_end(len, start as int));
    let mut visible: Vec<(usize, String)> = Vec::new();
    let mut k: usize = start;
    while k < end
        invariant
            start <= k <= end,
            end <= documents@.len(),
            visible@.len() == k - start,
            forall|j: int| #![trigger visible@[j]] 0 <= j < visible@.len() ==> visible@[j].0 == start + j && visible@[j].1@ == documents@[start + j]@,
        decreases end - k,
    {
        let document = documents[k].clone();
        visible.push((k, document));
        k = k + 1;
    }
    visible
}

/// The page after `page`, staying on the last of `page_count` pages.
pub fn next_document_page(page: usize, page_count: usize) -> (next: usize)
    ensures
        next == (if page_count == 0 {
            page as int
        } else if page + 1 < page_count - 1 {
            page + 1
        } else {
            page_count - 1
        }),
{
    if page_count == 0 {
        page
    } else if page >= page_count - 1 {
        page_count - 1
    } else {
        page + 1
    }
}

/// The page before `page`, staying on the first page.
pub fn previous_document_page(page: usize) -> (previous: usize)
    ensures
        previous == (if page == 0 { 0 } else { page - 1 }),
{
    if page == 0 {
        0
    } else {
        page - 1
    }
}

/// A page drawn from the generator among `page_count` pages; with no pages
/// the page stays. Draws from `0..=page_count - 1`, which gives the same
/// value as drawing from `0..page_count`.
pub fn random_document_page(rng: &mut ChaCha8Rng, page: usize, page_count: usize) -> (drawn: usize)
    ensures
        page_count == 0 ==> drawn == page,
        page_count > 0 ==> drawn < page_count,
{
    if page_count == 0 {
        page
    } else {
        random_index_through(rng, page_count - 1)
    }
}

// ---------------------------------------------------------------------------
// Search scores
// ---------------------------------------------------------------------------

/// `pattern` occurs in `text` at `i`.
pub open spec fn matches_at(text: Seq<char>, pattern: Seq<char>, i: int) -> bool {
    0 <= i && i + pattern.len() <= text.len() && text.subrange(i, i + pattern.len()) == pattern
}

/// `pattern` occurs somewhere in `text`.
pub open spec fn contains_text(text: Seq<char>, pattern: Seq<char>) -> bool {
    exists|i: int| #[trigger] matches_at(text, pattern, i)
}

/// The number of non-overlapping occurrences of a non-empty `pattern` in
/// `text` at or after `from`, found left to right.
pub open spec fn count_matches_from(text: Seq<char>, pattern: Seq<char>, from: int) -> nat
    decreases text.len() - from,
{
    if pattern.len() == 0 || from < 0 || from + pattern.len() > text.len() {
        0
    } else if matches_at(text, pattern, from) {
        1 + count_matches_from(text, pattern, from + pattern.len())
    } else {
        count_matches_from(text, pattern, from + 1)
    }
}

/// How many characters of `query`, in order, can be matched one after the
/// other in `document`, each at the first place after the previous one; a
/// character that cannot be found ends the matching.
pub open spec fn ordered_score(document: Seq<char>, query: Seq<char>) -> nat
    decreases query.len(),
{
    if query.len() == 0 {
        0
    } else {
        match first_index_of(document, query[0]) {
            Some(k) => 1 + ordered_score(document.skip(k + 1), query.drop_first()),
            None => 0,
        }
    }
}

/// The first position of `c` in `s`.
pub open spec fn first_index_of(s: Seq<char>, c: char) -> Option<int> {
    if exists|k: int| 0 <= k < s.len() && s[k] == c {
        Some(choose|k: int| 0 <= k < s.len() && s[k] == c && forall|j: int| 0 <= j < k ==> s[j] != c)
    } else {
        None
    }
}

proof fn lemma_first_index_exists(s: Seq<char>, c: char, k: int)
    requires
        0 <= k < s.len(),
        s[k] == c,
        forall|j: int| 0 <= j < k ==> s[j] != c,
    ensures
        first_index_of(s, c) == Some(k),
{
    assert(exists|k: int| 0 <= k < s.len() && s[k] == c);
    let m = choose|m: int| 0 <= m < s.len() && s[m] == c && forall|j: int| 0 <= j < m ==> s[j] != c;
    assert(exists|m: int| 0 <= m < s.len() && s[m] == c && forall|j: int| 0 <= j < m ==> s[j] != c) by {
        assert(0 <= k < s.len() && s[k] == c && forall|j: int| 0 <= j < k ==> s[j] != c);
    }
    if m < k {
        assert(s[m] != c);
    } else if m > k {
        assert(s[k] != c);
    }
}

/// How many characters of `query`, in order, are found one after the other
/// in `document`.
pub fn ordered_character_score(document: &str, query: &str) -> (score: usize)
    ensures
        score == ordered_score(document@, query@),
{
    let d = chars_of(document);
    let q = chars_of(query);
    ordered_chars_score(&d, &q)
}

/// The first position of `c` in `d` at or after `from`, or the length of `d`
/// if there is none; relates it to `first_index_of` on the rest of `d`.
fn find_char(d: &Vec<char>, from: usize, c: char) -> (k: usize)
    requires
        from <= d@.len(),
    ensures
        from <= k <= d@.len(),
        k < d@.len() ==> first_index_of(d@.skip(from as int), c) == Some(k - from)
            && d@.skip(from as int).skip(k - from + 1) == d@.skip(k + 1),
        k == d@.len() ==> first_index_of(d@.skip(from as int), c) is None,
{
    let mut k: usize = from;
    while k < d.len() && d[k] != c
        invariant
            from <= k <= d@.len(),
            forall|j: int| from <= j < k ==> d@[j] != c,
        decreases d@.len() - k,
    {
        k = k + 1;
    }
    proof {
        let rest = d@.skip(from as int);
        if k < d.len() {
            assert(forall|j: int| 0 <= j < k - from ==> rest[j] == d@[from + j]);
            lemma_first_index_exists(rest, c, k - from);
            assert(rest.skip(k - from + 1) =~= d@.skip(k + 1));
        } else {
            if exists|j: int| 0 <= j < rest.len() && rest[j] == c {
                let j = choose|j: int| 0 <= j < rest.len() && rest[j] == c;
                assert(d@[from + j] != c);
            }
        }
    }
    k
}


/// The number of non-overlapping occurrences of `pattern` in `text`, found
/// left to right as `str::matches` finds them; an empty pattern matches at
/// every character boundary.
pub open spec fn match_count(text: Seq<char>, pattern: Seq<char>) -> nat {
    if pattern.len() == 0 {
        text.len() + 1
    } else {
        count_matches_from(text, pattern, 0)
    }
}

/// The score one search term adds for a document: a term found in the
/// document weighs 100, 8 per byte of the term and 25 per occurrence; a term
/// not found adds its ordered character score.
pub open spec fn term_score(document: Seq<char>, term: Seq<char>) -> nat {
    if contains_text(document, term) {
        100 + 8 * utf8_byte_len(term) + 25 * match_count(document, term)
    } else {
        ordered_score(document, term)
    }
}

/// The scores of all `terms` for a document, summed.
pub open spec fn terms_score(document: Seq<char>, terms: Seq<Seq<char>>) -> nat
    decreases terms.len(),
{
    if terms.len() == 0 {
        0
    } else {
        terms_score(document, terms.drop_last()) + term_score(document, terms.last())
    }
}

/// How well a document matches a search: a document holding the whole query
/// starts at 1000 plus 4 per byte of the query, any other at the query's
/// ordered character score; the scores of the terms are added.
pub open spec fn match_score(document: Seq<char>, query: Seq<char>, terms: Seq<Seq<char>>) -> nat {
    (if contains_text(document, query) {
        1000 + 4 * utf8_byte_len(query)
    } else {
        ordered_score(document, query)
    }) + terms_score(document, terms)
}

/// Whether `pattern` occurs in `text` at `i`.
fn matches_at_position(text: &Vec<char>, pattern: &Vec<char>, i: usize) -> (found: bool)
    requires
        i + pattern@.len() <= text.len(),
    ensures
        found == matches_at(text@, pattern@, i as int),
{
    let mut k: usize = 0;
    while k < pattern.len()
        invariant
            k <= pattern@.len(),
            i + pattern@.len() <= text.len(),
            forall|j: int| 0 <= j < k ==> text@[i + j] == pattern@[j],
        decreases pattern@.len() - k,
    {
        if text[i + k] != pattern[k] {
            assert(text@.subrange(i as int, i + pattern@.len())[k as int] != pattern@[k as int]);
            return false;
        }
        k = k + 1;
    }
    assert(text@.subrange(i as int, i + pattern@.len()) =~= pattern@);
    true
}

/// Whether `pattern` occurs anywhere in `text`.
fn contains_pattern(text: &Vec<char>, pattern: &Vec<char>) -> (found: bool)
    ensures
        found == contains_text(text@, pattern@),
{
    if pattern.len() > text.len() {
        assert forall|i: int| !#[trigger] matches_at(text@, pattern@, i) by {}
        return false;
    }
    if pattern.len() == 0 {
        assert(text@.subrange(0, 0) =~= pattern@);
        assert(matches_at(text@, pattern@, 0));
        return true;
    }
    let last = text.len() - pattern.len();
    let mut i: usize = 0;
    while i <= last
        invariant
            last + pattern.len() == text.len(),
            pattern@.len() > 0,
            i <= last + 1,
            forall|j: int| 0 <= j < i ==> !#[trigger] matches_at(text@, pattern@, j),
        decreases last + 1 - i,
    {
        if matches_at_position(text, pattern, i) {
            return true;
        }
        i = i + 1;
    }
    assert forall|j: int| !#[trigger] matches_at(text@, pattern@, j) by {
        if 0 <= j <= last as int {
            assert(j < i);
        }
    }
    false
}

proof fn lemma_count_matches_bound(text: Seq<char>, pattern: Seq<char>, from: int)
    requires
        0 <= from,
    ensures
        count_matches_from(text, pattern, from) <= if from <= text.len() { text.len() - from } else { 0 },
    decreases text.len() - from,
{
    if pattern.len() == 0 || from + pattern.len() > text.len() {
    } else if matches_at(text, pattern, from) {
        lemma_count_matches_bound(text, pattern, from + pattern.len());
    } else {
        lemma_count_matches_bound(text, pattern, from + 1);
    }
}

/// The number of non-overlapping occurrences of `pattern` in `text`, or
/// `None` where that number does not fit a `usize`.
fn count_pattern(text: &Vec<char>, pattern: &Vec<char>) -> (count: Option<usize>)
    ensures
        match count {
            Some(c) => c == match_count(text@, pattern@),
            None => match_count(text@, pattern@) > usize::MAX,
        },
{
    if pattern.len() == 0 {
        return text.len().checked_add(1);
    }
    if pattern.len() > text.len() {
        return Some(0);
    }
    let m = pattern.len();
    let mut count: usize = 0;
    let mut i: usize = 0;
    proof {
        lemma_count_matches_bound(text@, pattern@, 0);
    }
    while m <= text.len() - i
        invariant
            m == pattern@.len(),
            m > 0,
            i <= text@.len(),
            count + count_matches_from(text@, pattern@, i as int) == count_matches_from(text@, pattern@, 0),
            count_matches_from(text@, pattern@, 0) <= text@.len(),
        decreases text@.len() - i,
    {
        if matches_at_position(text, pattern, i) {
            count = count + 1;
            i = i + m;
        } else {
            i = i + 1;
        }
    }
    Some(count)
}

/// The number of bytes UTF-8 needs for `chars`, or `None` where that does
/// not fit a `usize`.
fn utf8_length(chars: &Vec<char>) -> (length: Option<usize>)
    ensures
        match length {
            Some(n) => n == utf8_byte_len(chars@),
            None => utf8_byte_len(chars@) > usize::MAX,
        },
{
    let mut total: usize = 0;
    let mut i: usize = 0;
    assert(chars@.take(0) =~= Seq::<char>::empty());
    while i < chars.len()
        invariant
            i <= chars@.len(),
            total == utf8_byte_len(chars@.take(i as int)),
        decreases chars@.len() - i,
    {
        let width = utf8_char_len(chars[i]);
        assert(chars@.take(i + 1).drop_last() =~= chars@.take(i as int));
        match total.checked_add(width) {
            Some(t) => {
                total = t;
            },
            None => {
                proof {
                    lemma_utf8_byte_len_monotone(chars@, i + 1);
                }
                return None;
            },
        }
        i = i + 1;
    }
    assert(chars@.take(i as int) =~= chars@);
    Some(total)
}

/// The score one search term adds for a document, or `None` where it does
/// not fit a `usize`.
fn term_score_checked(document: &Vec<char>, term: &Vec<char>) -> (score: Option<usize>)
    ensures
        match score {
            Some(s) => s == term_score(document@, term@),
            None => term_score(document@, term@) > usize::MAX,
        },
{
    if contains_pattern(document, term) {
        let bytes = match utf8_length(term) {
            Some(b) => b,
            None => return None,
        };
        let occurrences = match count_pattern(document, term) {
            Some(c) => c,
            None => return None,
        };
        let weighted_bytes = match bytes.checked_mul(8) {
            Some(w) => w,
            None => return None,
        };
        let weighted_occurrences = match occurrences.checked_mul(25) {
            Some(w) => w,
            None => return None,
        };
        let found = match weighted_bytes.checked_add(100) {
            Some(f) => f,
            None => return None,
        };
        found.checked_add(weighted_occurrences)
    } else {
        Some(ordered_chars_score(document, term))
    }
}

/// How many characters of `query`, in order, are found one after the other
/// in `document`, on character vectors.
#[verifier::spinoff_prover]
#[verifier::rlimit(30)]
fn ordered_chars_score(d: &Vec<char>, q: &Vec<char>) -> (score: usize)
    ensures
        score == ordered_score(d@, q@),
{
    let mut score: usize = 0;
    let mut position: usize = 0;
    let mut i: usize = 0;
    let mut exhausted = false;
    assert(d@.skip(0) =~= d@);
    assert(q@.skip(0) =~= q@);
    while i < q.len()
        invariant
            i <= q@.len(),
            position <= d@.len(),
            score <= i,
            ordered_score(d@, q@) == score + if exhausted { 0 } else { ordered_score(d@.skip(position as int), q@.skip(i as int)) },
        decreases q@.len() - i,
    {
        if !exhausted {
            let c = q[i];
            proof {
                let qs = q@.skip(i as int);
                assert(qs[0] == c);
                assert(qs.drop_first() =~= q@.skip(i + 1));
            }
            let k = find_char(d, position, c);
            if k < d.len() {
                score = score + 1;
                position = k + 1;
            } else {
                exhausted = true;
            }
        }
        i = i + 1;
    }
    proof {
        if !exhausted {
            assert(q@.skip(i as int).len() == 0);
        }
    }
    score
}

/// How well a document matches a search, or `None` where the score does not
/// fit a `usize`.
fn match_score_checked(document: &Vec<char>, query: &Vec<char>, terms: &Vec<Vec<char>>) -> (score: Option<usize>)
    ensures
        match score {
            Some(s) => s == match_score(document@, query@, vec_views(terms@)),
            None => match_score(document@, query@, vec_views(terms@)) > usize::MAX,
        },
{
    let ghost tv = vec_views(terms@);
    let mut score: usize = if contains_pattern(document, query) {
        let bytes = match utf8_length(query) {
            Some(b) => b,
            None => return None,
        };
        let weighted = match bytes.checked_mul(4) {
            Some(w) => w,
            None => return None,
        };
        match weighted.checked_add(1000) {
            Some(s) => s,
            None => return None,
        }
    } else {
        ordered_chars_score(document, query)
    };
    let ghost base: nat = score as nat;
    let mut i: usize = 0;
    assert(tv.take(0) =~= Seq::<Seq<char>>::empty());
    while i < terms.len()
        invariant
            i <= terms@.len(),
            tv == vec_views(terms@),
            score == base + terms_score(document@, tv.take(i as int)),
            match_score(document@, query@, tv) == base + terms_score(document@, tv),
        decreases terms@.len() - i,
    {
        assert(tv.take(i + 1).drop_last() =~= tv.take(i as int));
        assert(tv.take(i + 1).last() == terms@[i as int]@);
        proof {
            lemma_terms_score_monotone(document@, tv, i + 1);
        }
        let term_score = match term_score_checked(document, &terms[i]) {
            Some(t) => t,
            None => return None,
        };
        score = match score.checked_add(term_score) {
            Some(s) => s,
            None => return None,
        };
        i = i + 1;
    }
    assert(tv.take(i as int) =~= tv);
    Some(score)
}

/// The character sequences of a list of character vectors.
pub open spec fn vec_views(v: Seq<Vec<char>>) -> Seq<Seq<char>> {
    v.map_values(|c: Vec<char>| c@)
}

proof fn lemma_terms_score_monotone(document: Seq<char>, terms: Seq<Seq<char>>, i: int)
    requires
        0 <= i <= terms.len(),
    ensures
        terms_score(document, terms.take(i)) <= terms_score(document, terms),
    decreases terms.len() - i,
{
    if i < terms.len() {
        lemma_terms_score_monotone(document, terms, i + 1);
        assert(terms.take(i + 1).drop_last() =~= terms.take(i));
    } else {
        assert(terms.take(i) =~= terms);
    }
}

/// How well `document` matches the search `query` with its whitespace
/// separated `terms` (all already lowercased).
pub fn document_match_score(document: &str, query: &str, terms: &[&str]) -> (score: usize)
    requires
        match_score(document@, query@, str_views(terms@)) <= usize::MAX,
    ensures
        score == match_score(document@, query@, str_views(terms@)),
{
    let d = chars_of(document);
    let q = chars_of(query);
    let mut term_chars: Vec<Vec<char>> = Vec::new();
    let mut i: usize = 0;
    while i < terms.len()
        invariant
            i <= terms@.len(),
            term_chars@.len() == i,
            vec_views(term_chars@) == str_views(terms@).take(i as int),
        decreases terms@.len() - i,
    {
        let t = chars_of(terms[i]);
        let ghost before = term_chars@;
        term_chars.push(t);
        proof {
            assert(term_chars@ == before.push(t));
            assert(vec_views(term_chars@) =~= vec_views(before).push(t@));
            assert(str_views(terms@).take(i + 1) =~= str_views(terms@).take(i as int).push(terms@[i as int]@));
        }
        i = i + 1;
    }
    assert(str_views(terms@).take(i as int) =~= str_views(terms@));
    match match_score_checked(&d, &q, &term_chars) {
        Some(s) => s,
        None => 0,
    }
}

/// The character sequences of a list of string slices.
pub open spec fn str_views(v: Seq<&str>) -> Seq<Seq<char>> {
    v.map_values(|s: &str| s@)
}

// ---------------------------------------------------------------------------
// Searching the documents
// ---------------------------------------------------------------------------

/// The words of `s` collected so far, and the word being read, after reading
/// `s` from the left.
pub open spec fn words_pending(s: Seq<char>) -> (Seq<Seq<char>>, Seq<char>)
    decreases s.len(),
{
    if s.len() == 0 {
        (Seq::empty(), Seq::empty())
    } else {
        let (words, current) = words_pending(s.drop_last());
        if is_unicode_whitespace(s.last()) {
            if current.len() > 0 {
                (words.push(current), Seq::empty())
            } else {
                (words, Seq::empty())
            }
        } else {
            (words, current.push(s.last()))
        }
    }
}

/// The maximal runs of non-whitespace characters of `s`, in order, as
/// `str::split_whitespace` gives them.
pub open spec fn words(s: Seq<char>) -> Seq<Seq<char>> {
    let (words, current) = words_pending(s);
    if current.len() > 0 {
        words.push(current)
    } else {
        words
    }
}

/// The whitespace separated words of `chars`.
fn split_words(chars: &Vec<char>) -> (split: Vec<Vec<char>>)
    ensures
        vec_views(split@) == words(chars@),
{
    let mut split: Vec<Vec<char>> = Vec::new();
    let mut current: Vec<char> = Vec::new();
    let mut i: usize = 0;
    assert(chars@.take(0) =~= Seq::<char>::empty());
    while i < chars.len()
        invariant
            i <= chars@.len(),
            (vec_views(split@), current@) == words_pending(chars@.take(i as int)),
        decreases chars@.len() - i,
    {
        let c = chars[i];
        let ghost before = vec_views(split@);
        assert(chars@.take(i + 1).drop_last() =~= chars@.take(i as int));
        assert(chars@.take(i + 1).last() == c);
        if is_whitespace_char(c) {
            if current.len() > 0 {
                let word = current;
                current = Vec::new();
                let ghost w = word@;
                split.push(word);
                assert(vec_views(split@) =~= before.push(w));
            } else {
                current = Vec::new();
            }
            assert(current@ =~= Seq::<char>::empty());
        } else {
            current.push(c);
        }
        i = i + 1;
    }
    assert(chars@.take(i as int) =~= chars@);
    if current.len() > 0 {
        let ghost before = vec_views(split@);
        let ghost w = current@;
        split.push(current);
        assert(vec_views(split@) =~= before.push(w));
    }
    split
}

/// Document `a` ranks before document `b`: a higher score first, and of
/// equal scores the earlier document.
pub open spec fn ranks_before(scores: Seq<nat>, a: int, b: int) -> bool {
    scores[a] > scores[b] || (scores[a] == scores[b] && a < b)
}

/// `ranked` lists the `limit` best documents by `scores` (all of them where
/// there are fewer), best first: each one ranks before every later one and
/// before every document left out.
pub open spec fn is_top_ranking(scores: Seq<nat>, ranked: Seq<usize>, limit: nat) -> bool {
    &&& ranked.len() == (if scores.len() < limit { scores.len() } else { limit })
    &&& forall|k: int| 0 <= k < ranked.len() ==> #[trigger] ranked[k] < scores.len()
    &&& forall|k1: int, k2: int|
        0 <= k1 < k2 < ranked.len() ==> ranks_before(scores, #[trigger] ranked[k1] as int, #[trigger] ranked[k2] as int)
    &&& forall|i: int, k: int|
        0 <= i < scores.len() && !ranked.contains(i as usize) && 0 <= k < ranked.len()
            ==> #[trigger] ranks_before(scores, ranked[k] as int, i)
}

/// The scores of a list of `usize` scores, as numbers.
pub open spec fn score_values(scores: Seq<usize>) -> Seq<nat> {
    scores.map_values(|s: usize| s as nat)
}

/// The positions of the ten best scores (all of them where there are fewer),
/// best first; equal scores keep their order.
pub fn rank_search_matches(scores: &Vec<usize>) -> (ranked: Vec<usize>)
    ensures
        is_top_ranking(score_values(scores@), ranked@, 10),
{
    let ghost sv = score_values(scores@);
    let n = scores.len();
    let limit = if n < 10 { n } else { 10 };
    let mut remaining: Vec<usize> = Vec::new();
    let mut i: usize = 0;
    while i < n
        invariant
            i <= n,
            n == scores@.len(),
            remaining@.len() == i,
            forall|p: int| 0 <= p < i ==> #[trigger] remaining@[p] == p,
        decreases n - i,
    {
        remaining.push(i);
        i = i + 1;
    }
    let mut ranked: Vec<usize> = Vec::new();
    assert forall|x: usize| x < n implies #[trigger] remaining@.contains(x) by {
        assert(remaining@[x as int] == x);
    }
    while ranked.len() < limit
        invariant
            n == scores@.len(),
            sv == score_values(scores@),
            limit == (if n < 10 { n } else { 10 }),
            ranked@.len() <= limit,
            ranked@.len() + remaining@.len() == n,
            forall|k: int| 0 <= k < ranked@.len() ==> #[trigger] ranked@[k] < n,
            forall|p: int| 0 <= p < remaining@.len() ==> #[trigger] remaining@[p] < n,
            forall|p: int, q: int| 0 <= p < q < remaining@.len() ==> #[trigger] remaining@[p] != #[trigger] remaining@[q],
            forall|p: int| 0 <= p < remaining@.len() ==> !ranked@.contains(#[trigger] remaining@[p]),
            forall|x: usize| #![trigger ranked@.contains(x)] #![trigger remaining@.contains(x)]
                x < n ==> ranked@.contains(x) || remaining@.contains(x),
            forall|k1: int, k2: int|
                0 <= k1 < k2 < ranked@.len() ==> ranks_before(sv, #[trigger] ranked@[k1] as int, #[trigger] ranked@[k2] as int),
            forall|k: int, p: int|
                0 <= k < ranked@.len() && 0 <= p < remaining@.len()
                    ==> ranks_before(sv, #[trigger] ranked@[k] as int, #[trigger] remaining@[p] as int),
        decreases limit - ranked@.len(),
    {
        let mut best: usize = 0;
        let mut p: usize = 1;
        while p < remaining.len()
            invariant
                0 < remaining@.len(),
                best < p <= remaining@.len(),
                n == scores@.len(),
                sv == score_values(scores@),
                forall|q: int| 0 <= q < remaining@.len() ==> #[trigger] remaining@[q] < n,
                forall|q: int, r: int| 0 <= q < r < remaining@.len() ==> #[trigger] remaining@[q] != #[trigger] remaining@[r],
                forall|q: int| 0 <= q < p && q != best ==> ranks_before(sv, remaining@[best as int] as int, #[trigger] remaining@[q] as int),
            decreases remaining@.len() - p,
        {
            let candidate = remaining[p];
            let current = remaining[best];
            assert(sv[candidate as int] == scores@[candidate as int] as nat);
            assert(sv[current as int] == scores@[current as int] as nat);
            assert(candidate != current);
            if scores[candidate] > scores[current] || (scores[candidate] == scores[current] && candidate < current) {
                best = p;
            }
            p = p + 1;
        }
        let ghost old_remaining = remaining@;
        let ghost old_ranked = ranked@;
        let chosen = remaining.remove(best);
        ranked.push(chosen);
        proof {
            assert(old_remaining.remove(best as int) == remaining@);
            assert forall|q: int| 0 <= q < remaining@.len() implies ranks_before(sv, chosen as int, #[trigger] remaining@[q] as int) by {
                let oq = if q < best { q } else { q + 1 };
                assert(remaining@[q] == old_remaining[oq]);
                assert(old_remaining[oq] != old_remaining[best as int]);
            }
            assert forall|x: usize| x < n implies #[trigger] ranked@.contains(x) || #[trigger] remaining@.contains(x) by {
                if old_ranked.contains(x) {
                    let k = choose|k: int| 0 <= k < old_ranked.len() && old_ranked[k] == x;
                    assert(ranked@[k] == x);
                } else {
                    assert(old_remaining.contains(x));
                    let q = choose|q: int| 0 <= q < old_remaining.len() && old_remaining[q] == x;
                    if q == best {
                        assert(ranked@[old_ranked.len() as int] == x);
                    } else {
                        let nq = if q < best { q } else { q - 1 };
                        assert(remaining@[nq] == x);
                    }
                }
            }
            assert forall|q: int| 0 <= q < remaining@.len() implies !ranked@.contains(#[trigger] remaining@[q]) by {
                let oq = if q < best { q } else { q + 1 };
                assert(remaining@[q] == old_remaining[oq]);
                assert(old_remaining[oq] != old_remaining[best as int]);
                if ranked@.contains(remaining@[q]) {
                    let k = choose|k: int| 0 <= k < ranked@.len() && ranked@[k] == remaining@[q];
                    if k < old_ranked.len() {
                        assert(old_ranked[k] == old_remaining[oq]);
                    }
                }
            }
        }
    }
    proof {
        assert forall|x: int, k: int|
            0 <= x < sv.len() && !ranked@.contains(x as usize) && 0 <= k < ranked@.len()
                implies #[trigger] ranks_before(sv, ranked@[k] as int, x) by {
            assert(remaining@.contains(x as usize));
            let q = choose|q: int| 0 <= q < remaining@.len() && remaining@[q] == x as usize;
            assert(ranks_before(sv, ranked@[k] as int, remaining@[q] as int));
        }
    }
    ranked
}

/// The query a search text stands for: the text trimmed and lowercased.
pub open spec fn search_query(search: Seq<char>) -> Seq<char> {
    lowercase_string(trim_whitespace(search))
}

/// The score of each document, lowercased, for a query and its words.
pub open spec fn search_scores(documents: Seq<String>, query: Seq<char>) -> Seq<nat> {
    Seq::new(documents.len(), |i: int| match_score(lowercase_string(documents[i]@), query, words(query)))
}

/// The positions of a list of search matches.
pub open spec fn match_positions(matches: Seq<(usize, String)>) -> Seq<usize> {
    matches.map_values(|m: (usize, String)| m.0)
}

/// The documents that best match `search`, with their positions: the ten
/// best by score (all where there are fewer), best first, equal scores in
/// document order. An empty query finds nothing; `None` stands for a score
/// too large for a `usize`.
pub fn search_documents(documents: &[String], search: &str) -> (matches: Option<Vec<(usize, String)>>)
    ensures
        search_query(search@).len() == 0 ==> matches is Some && matches->0@.len() == 0,
        search_query(search@).len() > 0 ==> (matches is None <==> exists|i: int|
            0 <= i < documents@.len() && #[trigger] search_scores(documents@, search_query(search@))[i] > usize::MAX),
        search_query(search@).len() > 0 && matches is Some ==> {
            let found = matches->0@;
            &&& is_top_ranking(search_scores(documents@, search_query(search@)), match_positions(found), 10)
            &&& forall|k: int| 0 <= k < found.len() ==> (#[trigger] found[k]).1@ == documents@[found[k].0 as int]@
        },
{
    let trimmed = trim_chars(&chars_of(search));
    let trimmed_text = string_from_chars(&trimmed);
    let lowered = str_to_lowercase(trimmed_text.as_str());
    let query = chars_of(lowered.as_str());
    let ghost q = search_query(search@);
    assert(query@ == q);
    if query.len() == 0 {
        return Some(Vec::new());
    }
    let terms = split_words(&query);
    let ghost expected = search_scores(documents@, q);
    let mut scores: Vec<usize> = Vec::new();
    let mut i: usize = 0;
    while i < documents.len()
        invariant
            i <= documents@.len(),
            query@ == q,
            q == search_query(search@),
            q.len() > 0,
            vec_views(terms@) == words(q),
            expected == search_scores(documents@, q),
            scores@.len() == i,
            forall|j: int| 0 <= j < i ==> #[trigger] scores@[j] as nat == expected[j],
        decreases documents@.len() - i,
    {
        let document = str_to_lowercase(documents[i].as_str());
        let d = chars_of(document.as_str());
        assert(d@ == lowercase_string(documents@[i as int]@));
        match match_score_checked(&d, &query, &terms) {
            Some(score) => {
                scores.push(score);
            },
            None => {
                assert(expected[i as int] > usize::MAX);
                return None;
            },
        }
        i = i + 1;
    }
    assert(score_values(scores@) =~= expected);
    let ranked = rank_search_matches(&scores);
    let mut found: Vec<(usize, String)> = Vec::new();
    let mut k: usize = 0;
    while k < ranked.len()
        invariant
            k <= ranked@.len(),
            is_top_ranking(expected, ranked@, 10),
            expected.len() == documents@.len(),
            found@.len() == k,
            forall|j: int| #![trigger found@[j]] 0 <= j < k ==> found@[j].0 == ranked@[j] && found@[j].1@ == documents@[ranked@[j] as int]@,
        decreases ranked@.len() - k,
    {
        let position = ranked[k];
        let document = documents[position].clone();
        found.push((position, document));
        k = k + 1;
    }
    assert(match_positions(found@) =~= ranked@);
    proof {
        assert forall|i: int| 0 <= i < documents@.len() implies !(#[trigger] expected[i] > usize::MAX) by {
            assert(scores@[i] as nat == expected[i]);
        }
    }
    Some(found)
}

} // verus!
