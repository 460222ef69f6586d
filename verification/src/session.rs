use vstd::prelude::*;
use crate::stories::{lemma_permuted_flat_multiset, permuted, string_views};
use crate::text::{normalize_training_document, normalized_document, chars_of};
use crate::model::CharacterTokenizer;
use crate::random::{
    fisher_yates, fisher_yates_draws, is_index_permutation, lemma_fisher_yates_is_permutation, shuffled_by,
};
use rand_chacha::ChaCha8Rng;

verus! {

// ---------------------------------------------------------------------------
// Documents of a session
// ---------------------------------------------------------------------------

/// The normalized form of each document, leaving out those that normalize
/// to nothing.
pub open spec fn normalized_documents(documents: Seq<Seq<char>>) -> Seq<Seq<char>>
    decreases documents.len(),
{
    if documents.len() == 0 {
        seq![]
    } else {
        let before = normalized_documents(documents.drop_last());
        let n = normalized_document(documents.last());
        if n.len() == 0 {
            before
        } else {
            before.push(n)
        }
    }
}

/// Normalizes every document and drops those left empty.
pub fn normalize_training_documents(documents: &[String]) -> (normalized: Vec<String>)
    ensures
        string_views(normalized@) == normalized_documents(string_views(documents@)),
{
    let mut normalized: Vec<String> = Vec::new();
    let mut i: usize = 0;
    while i < documents.len()
        invariant
            i <= documents@.len(),
            string_views(normalized@) == normalized_documents(string_views(documents@.take(i as int))),
        decreases documents@.len() - i,
    {
        assert(string_views(documents@.take(i + 1)).drop_last() =~= string_views(documents@.take(i as int)));
        let document = normalize_training_document(documents[i].as_str());
        if !document.as_str().is_empty() {
            let ghost before = normalized@;
            let ghost view = document@;
            normalized.push(document);
            assert(string_views(normalized@) =~= string_views(before).push(view));
        }
        i = i + 1;
    }
    assert(documents@.take(i as int) =~= documents@);
    normalized
}

// ---------------------------------------------------------------------------
// Vocabulary
// ---------------------------------------------------------------------------

/// `c` occurs in one of the documents.
pub open spec fn occurs_in(documents: Seq<Seq<char>>, c: char) -> bool {
    exists|i: int, j: int| 0 <= i < documents.len() && 0 <= j < documents[i].len() && #[trigger] documents[i][j] == c
}

/// Each character comes before the next one.
pub open spec fn strictly_increasing(chars: Seq<char>) -> bool {
    forall|i: int, j: int| 0 <= i < j < chars.len() ==> #[trigger] chars[i] < #[trigger] chars[j]
}

proof fn lemma_inserted_contains(before: Seq<char>, i: int, c: char, d: char)
    requires
        0 <= i <= before.len(),
    ensures
        (before.take(i).push(c) + before.skip(i)).contains(d) <==> (before.contains(d) || d == c),
{
    let after = before.take(i).push(c) + before.skip(i);
    if after.contains(d) {
        let k = choose|k: int| 0 <= k < after.len() && #[trigger] after[k] == d;
        if k < i {
            assert(before[k] == d);
        } else if k > i {
            assert(before[k - 1] == d);
        }
    }
    if before.contains(d) {
        let k = choose|k: int| 0 <= k < before.len() && #[trigger] before[k] == d;
        if k < i {
            assert(after[k] == d);
        } else {
            assert(after[k + 1] == d);
        }
    }
    if d == c {
        assert(after[i] == c);
    }
}

/// Inserts `c` into a strictly increasing list unless it is there already.
fn insert_sorted(chars: &mut Vec<char>, c: char)
    requires
        strictly_increasing(old(chars)@),
    ensures
        strictly_increasing(final(chars)@),
        forall|d: char| #[trigger] final(chars)@.contains(d) <==> (old(chars)@.contains(d) || d == c),
{
    let mut i: usize = 0;
    while i < chars.len() && chars[i] < c
        invariant
            i <= chars@.len(),
            strictly_increasing(chars@),
            chars@ == old(chars)@,
            forall|k: int| 0 <= k < i ==> #[trigger] chars@[k] < c,
        decreases chars@.len() - i,
    {
        i = i + 1;
    }
    if i < chars.len() && chars[i] == c {
        assert(chars@[i as int] == c);
        assert forall|d: char| #[trigger] chars@.contains(d) <==> (old(chars)@.contains(d) || d == c) by {
            if d == c {
                assert(old(chars)@.contains(c));
            }
        }
        return;
    }
    let ghost before = chars@;
    assert(before == old(chars)@);
    chars.insert(i, c);
    assert(chars@ =~= before.take(i as int).push(c) + before.skip(i as int));
    assert forall|a: int, b: int| 0 <= a < b < chars@.len() implies #[trigger] chars@[a] < #[trigger] chars@[b] by {
        if a < i && b < i {
            assert(chars@[a] == before[a] && chars@[b] == before[b]);
        } else if a < i && b == i {
            assert(chars@[a] == before[a]);
        } else if a < i {
            assert(chars@[a] == before[a] && chars@[b] == before[b - 1]);
        } else if a == i {
            assert(chars@[b] == before[b - 1]);
            assert(before[i as int] > c || (i as int) == before.len());
            if b - 1 > i {
                assert(before[i as int] < before[b - 1]);
            }
        } else {
            assert(chars@[a] == before[a - 1] && chars@[b] == before[b - 1]);
        }
    }
    assert forall|d: char| #[trigger] chars@.contains(d) <==> (before.contains(d) || d == c) by {
        lemma_inserted_contains(before, i as int, c, d);
    }
}

/// The distinct characters of the documents in increasing order: the
/// tokenizer's vocabulary.
pub fn sorted_unique_characters(documents: &[String]) -> (chars: Vec<char>)
    ensures
        strictly_increasing(chars@),
        forall|c: char| chars@.contains(c) <==> occurs_in(string_views(documents@), c),
{
    let ghost docs = string_views(documents@);
    let mut chars: Vec<char> = Vec::new();
    let mut i: usize = 0;
    while i < documents.len()
        invariant
            i <= documents@.len(),
            docs == string_views(documents@),
            strictly_increasing(chars@),
            forall|c: char| chars@.contains(c) <==> occurs_in(docs.take(i as int), c),
        decreases documents@.len() - i,
    {
        let document = chars_of(documents[i].as_str());
        let ghost start = chars@;
        let mut j: usize = 0;
        while j < document.len()
            invariant
                j <= document@.len(),
                document@ == docs[i as int],
                strictly_increasing(chars@),
                forall|c: char| #[trigger] chars@.contains(c) <==> (start.contains(c) || document@.take(j as int).contains(c)),
            decreases document@.len() - j,
        {
            let ghost previous = chars@;
            assert(forall|c: char| #[trigger] previous.contains(c) <==> (start.contains(c) || document@.take(j as int).contains(c)));
            insert_sorted(&mut chars, document[j]);
            proof {
                assert forall|c: char| document@.take(j + 1).contains(c) <==> (document@.take(j as int).contains(c) || c == document@[j as int]) by {
                    if document@.take(j + 1).contains(c) {
                        let k = choose|k: int| 0 <= k < j + 1 && #[trigger] document@.take(j + 1)[k] == c;
                        if k < j {
                            assert(document@.take(j as int)[k] == c);
                        }
                    }
                    if document@.take(j as int).contains(c) {
                        let k = choose|k: int| 0 <= k < j && #[trigger] document@.take(j as int)[k] == c;
                        assert(document@.take(j + 1)[k] == c);
                    }
                    if c == document@[j as int] {
                        assert(document@.take(j + 1)[j as int] == c);
                    }
                }
                assert forall|c: char| chars@.contains(c) <==> (start.contains(c) || document@.take(j + 1).contains(c)) by {
                    assert(chars@.contains(c) <==> (previous.contains(c) || c == document@[j as int]));
                    assert(previous.contains(c) <==> (start.contains(c) || document@.take(j as int).contains(c)));
                }
            }
            j = j + 1;
        }
        proof {
            assert(document@.take(j as int) =~= document@);
            assert forall|c: char| occurs_in(docs.take(i + 1), c) <==> (occurs_in(docs.take(i as int), c) || docs[i as int].contains(c)) by {
                let p = docs.take(i + 1);
                let q = docs.take(i as int);
                if occurs_in(p, c) {
                    let (a, b) = choose|a: int, b: int| 0 <= a < p.len() && 0 <= b < p[a].len() && #[trigger] p[a][b] == c;
                    if a < i {
                        assert(q[a][b] == c);
                    } else {
                        assert(docs[i as int][b] == c);
                    }
                }
                if occurs_in(q, c) {
                    let (a, b) = choose|a: int, b: int| 0 <= a < q.len() && 0 <= b < q[a].len() && #[trigger] q[a][b] == c;
                    assert(p[a][b] == c);
                }
                if docs[i as int].contains(c) {
                    let b = choose|b: int| 0 <= b < docs[i as int].len() && #[trigger] docs[i as int][b] == c;
                    assert(p[i as int][b] == c);
                }
            }
            assert forall|c: char| chars@.contains(c) <==> occurs_in(docs.take(i + 1), c) by {
                assert(chars@.contains(c) <==> (start.contains(c) || document@.contains(c)));
                assert(start.contains(c) <==> occurs_in(docs.take(i as int), c));
                assert(occurs_in(docs.take(i + 1), c) <==> (occurs_in(docs.take(i as int), c) || docs[i as int].contains(c)));
            }
        }
        i = i + 1;
    }
    assert(docs.take(i as int) =~= docs);
    chars
}

// ---------------------------------------------------------------------------
// Preparing the documents of a new session
// ---------------------------------------------------------------------------

/// The documents at the positions `order`, in that order.
pub open spec fn documents_in_order(documents: Seq<Seq<char>>, order: Seq<usize>) -> Seq<Seq<char>> {
    order.map_values(|i: usize| documents[i as int])
}

/// The documents of a new session: the training and validation documents,
/// and the tokenizer over their characters.
pub struct PreparedDocuments {
    pub documents: Vec<String>,
    pub validation_documents: Vec<String>,
    pub tokenizer: CharacterTokenizer,
}

/// Prepares the documents of a new session: normalizes them and drops the
/// empty ones, shuffles them once, gives the first
/// `count / validation_set_divisor` to validation and the rest to training,
/// and builds the tokenizer over the sorted distinct characters, with the
/// boundary token right after the last character.
pub fn prepare_training_documents(
    input_documents: &[String],
    rng: &mut ChaCha8Rng,
    validation_set_divisor: usize,
) -> (prepared: PreparedDocuments)
    requires
        validation_set_divisor > 0,
    ensures
        ({
            let normalized = normalized_documents(string_views(input_documents@));
            let validation_count = normalized.len() / validation_set_divisor as nat;
            exists|draws: Seq<usize>|
                #![trigger fisher_yates_draws(draws, normalized.len())]
                fisher_yates_draws(draws, normalized.len())
                    && string_views(prepared.validation_documents@) == documents_in_order(
                        normalized,
                        fisher_yates(normalized.len(), draws).take(validation_count as int),
                    )
                    && string_views(prepared.documents@) == documents_in_order(
                        normalized,
                        fisher_yates(normalized.len(), draws).skip(validation_count as int),
                    )
        }),
        prepared.tokenizer.wf(),
        strictly_increasing(prepared.tokenizer.unique_characters@),
        forall|c: char|
            prepared.tokenizer.unique_characters@.contains(c) <==> occurs_in(
                normalized_documents(string_views(input_documents@)),
                c,
            ),
        prepared.tokenizer.sequence_boundary_token_id == prepared.tokenizer.unique_characters@.len(),
{
    let normalized = normalize_training_documents(input_documents);
    let ghost docs = string_views(normalized@);
    let unique_characters = sorted_unique_characters(normalized.as_slice());
    let shuffled = shuffled_by(normalized.as_slice(), rng);
    let ghost draws = choose|draws: Seq<usize>|
        #![trigger fisher_yates_draws(draws, normalized@.len())]
        fisher_yates_draws(draws, normalized@.len()) && forall|i: int|
            0 <= i < normalized@.len() ==> cloned::<String>(
                normalized@[fisher_yates(normalized@.len(), draws)[i] as int],
                #[trigger] shuffled@[i],
            );
    let ghost order = fisher_yates(normalized@.len(), draws);
    proof {
        assert(normalized@.len() == normalized.len());
        lemma_fisher_yates_is_permutation(normalized@.len(), draws);
    }
    assert(forall|i: int| 0 <= i < shuffled@.len() ==> #[trigger] shuffled@[i]@ == docs[order[i] as int]);
    let n = shuffled.len();
    let validation_count = n / validation_set_divisor;
    let mut validation_documents: Vec<String> = Vec::new();
    let mut documents: Vec<String> = Vec::new();
    let mut i: usize = 0;
    while i < n
        invariant
            i <= n,
            n == shuffled@.len(),
            n == docs.len(),
            validation_count <= n,
            is_index_permutation(order, n as nat),
            forall|j: int| 0 <= j < n ==> #[trigger] shuffled@[j]@ == docs[order[j] as int],
            i <= validation_count ==> string_views(validation_documents@) == documents_in_order(docs, order.take(i as int))
                && documents@.len() == 0,
            i > validation_count ==> string_views(validation_documents@) == documents_in_order(docs, order.take(validation_count as int))
                && string_views(documents@) == documents_in_order(docs, order.subrange(validation_count as int, i as int)),
        decreases n - i,
    {
        let document = shuffled[i].clone();
        if i < validation_count {
            let ghost before = string_views(validation_documents@);
            validation_documents.push(document);
            assert(string_views(validation_documents@) =~= before.push(docs[order[i as int] as int]));
            assert(documents_in_order(docs, order.take(i + 1)) =~= documents_in_order(docs, order.take(i as int)).push(docs[order[i as int] as int]));
        } else {
            let ghost before = string_views(documents@);
            documents.push(document);
            assert(string_views(documents@) =~= before.push(docs[order[i as int] as int]));
            if i == validation_count {
                assert(before =~= Seq::<Seq<char>>::empty());
            }
            assert(documents_in_order(docs, order.subrange(validation_count as int, i + 1)) =~= documents_in_order(docs, order.subrange(validation_count as int, i as int)).push(docs[order[i as int] as int]));
        }
        i = i + 1;
    }
    proof {
        if n <= validation_count {
            assert(string_views(documents@) =~= documents_in_order(docs, order.skip(validation_count as int)));
        } else {
            assert(order.subrange(validation_count as int, n as int) =~= order.skip(validation_count as int));
        }
        assert(fisher_yates_draws(draws, docs.len()));
    }
    let boundary = unique_characters.len();
    let tokenizer = CharacterTokenizer::new(unique_characters, boundary);
    PreparedDocuments { documents, validation_documents, tokenizer }
}

/// The tokenizer of a session whose documents are already split: its
/// characters are the sorted distinct characters of the training and the
/// validation documents, and the boundary token comes right after them.
pub fn tokenizer_for_documents(documents: &[String], validation_documents: &[String]) -> (tokenizer: CharacterTokenizer)
    ensures
        tokenizer.wf(),
        strictly_increasing(tokenizer.unique_characters@),
        forall|c: char|
            tokenizer.unique_characters@.contains(c) <==> (occurs_in(string_views(documents@), c) || occurs_in(
                string_views(validation_documents@),
                c,
            )),
        tokenizer.sequence_boundary_token_id == tokenizer.unique_characters@.len(),
{
    let mut all_documents: Vec<String> = Vec::new();
    let mut i: usize = 0;
    while i < documents.len()
        invariant
            i <= documents@.len(),
            string_views(all_documents@) == string_views(documents@).take(i as int),
        decreases documents@.len() - i,
    {
        let ghost before = string_views(all_documents@);
        all_documents.push(documents[i].clone());
        assert(string_views(all_documents@) =~= before.push(documents@[i as int]@));
        i = i + 1;
        assert(string_views(documents@).take(i as int) =~= before.push(documents@[i - 1]@));
    }
    assert(string_views(documents@).take(i as int) =~= string_views(documents@));
    let mut j: usize = 0;
    while j < validation_documents.len()
        invariant
            j <= validation_documents@.len(),
            string_views(all_documents@) == string_views(documents@) + string_views(validation_documents@).take(j as int),
        decreases validation_documents@.len() - j,
    {
        let ghost before = string_views(all_documents@);
        all_documents.push(validation_documents[j].clone());
        assert(string_views(all_documents@) =~= before.push(validation_documents@[j as int]@));
        j = j + 1;
        assert(string_views(documents@) + string_views(validation_documents@).take(j as int) =~= before.push(validation_documents@[j - 1]@));
    }
    assert(string_views(validation_documents@).take(j as int) =~= string_views(validation_documents@));
    let unique_characters = sorted_unique_characters(all_documents.as_slice());
    proof {
        let a = string_views(documents@);
        let b = string_views(validation_documents@);
        assert forall|c: char| occurs_in(a + b, c) <==> (occurs_in(a, c) || occurs_in(b, c)) by {
            if occurs_in(a + b, c) {
                let (x, y) = choose|x: int, y: int| 0 <= x < (a + b).len() && 0 <= y < (a + b)[x].len() && #[trigger] (a + b)[x][y] == c;
                if x < a.len() {
                    assert(a[x][y] == c);
                } else {
                    assert(b[x - a.len()][y] == c);
                }
            }
            if occurs_in(a, c) {
                let (x, y) = choose|x: int, y: int| 0 <= x < a.len() && 0 <= y < a[x].len() && #[trigger] a[x][y] == c;
                assert((a + b)[x][y] == c);
            }
            if occurs_in(b, c) {
                let (x, y) = choose|x: int, y: int| 0 <= x < b.len() && 0 <= y < b[x].len() && #[trigger] b[x][y] == c;
                assert((a + b)[x + a.len()][y] == c);
            }
        }
    }
    let boundary = unique_characters.len();
    CharacterTokenizer::new(unique_characters, boundary)
}

/// Splitting shuffled documents keeps every document exactly as often as
/// before: the validation documents followed by the training documents hold
/// the same documents, counted with multiplicity, as the list that was
/// shuffled, wherever the split falls.
pub proof fn lemma_prepared_documents_keep_every_document(documents: Seq<Seq<char>>, order: Seq<usize>, k: int)
    requires
        is_index_permutation(order, documents.len()),
        0 <= k <= documents.len(),
    ensures
        (documents_in_order(documents, order.take(k)) + documents_in_order(documents, order.skip(k))).to_multiset()
            == documents.to_multiset(),
{
    let groups = documents.map_values(|d: Seq<char>| seq![d]);
    lemma_permuted_flat_multiset(order, groups);
    assert forall|i: int| 0 <= i < groups.len() implies #[trigger] groups[i] == seq![documents[i]] by {}
    lemma_singletons_flatten(documents);
    lemma_singletons_flatten(documents_in_order(documents, order.take(k)) + documents_in_order(documents, order.skip(k)));
    assert(permuted(order, groups) =~= (documents_in_order(documents, order.take(k)) + documents_in_order(documents, order.skip(k))).map_values(|d: Seq<char>| seq![d]));
}

proof fn lemma_singletons_flatten(documents: Seq<Seq<char>>)
    ensures
        documents.map_values(|d: Seq<char>| seq![d]).flatten() == documents,
    decreases documents.len(),
{
    if documents.len() > 0 {
        lemma_singletons_flatten(documents.drop_last());
        let singles = documents.map_values(|d: Seq<char>| seq![d]);
        assert(singles =~= documents.drop_last().map_values(|d: Seq<char>| seq![d]).push(seq![documents.last()]));
        documents.drop_last().map_values(|d: Seq<char>| seq![d]).lemma_flatten_push(seq![documents.last()]);
        assert(documents.drop_last() + seq![documents.last()] =~= documents);
    } else {
        assert(documents.map_values(|d: Seq<char>| seq![d]) =~= Seq::<Seq<Seq<char>>>::empty());
    }
}

// ---------------------------------------------------------------------------
// Validation batches
// ---------------------------------------------------------------------------

/// How many validation documents one evaluation reads.
pub open spec fn evaluation_document_count(setting: usize, validation_document_count: usize) -> usize {
    if setting < validation_document_count {
        setting
    } else {
        validation_document_count
    }
}

/// The validation documents read when validation loss is measured after
/// `completed_step_count` steps: consecutive batches of the evaluation
/// count, wrapping around the validation set, one batch per validation
/// interval.
pub open spec fn validation_indices(
    completed_step_count: usize,
    validation_step_interval: usize,
    setting: usize,
    validation_document_count: usize,
) -> Seq<usize> {
    let count = evaluation_document_count(setting, validation_document_count);
    let batch = completed_step_count / validation_step_interval;
    Seq::new(count as nat, |k: int| ((batch * count + k) % (validation_document_count as int)) as usize)
}

/// The indices of the validation documents read when validation loss is
/// measured after `completed_step_count` steps; none when there are no
/// validation documents.
pub fn validation_document_indices(
    completed_step_count: usize,
    validation_step_interval: usize,
    validation_evaluation_document_count: usize,
    validation_document_count: usize,
) -> (indices: Vec<usize>)
    requires
        validation_step_interval > 0,
        (completed_step_count / validation_step_interval) * evaluation_document_count(
            validation_evaluation_document_count,
            validation_document_count,
        ) + evaluation_document_count(validation_evaluation_document_count, validation_document_count)
            <= usize::MAX,
    ensures
        indices@ == validation_indices(
            completed_step_count,
            validation_step_interval,
            validation_evaluation_document_count,
            validation_document_count,
        ),
        forall|k: int| 0 <= k < indices@.len() ==> #[trigger] indices@[k] < validation_document_count,
{
    let count = if validation_evaluation_document_count < validation_document_count {
        validation_evaluation_document_count
    } else {
        validation_document_count
    };
    let batch = completed_step_count / validation_step_interval;
    let mut indices: Vec<usize> = Vec::new();
    let mut k: usize = 0;
    proof {
        let b = batch as int;
        let c = count as int;
        assert(b * c <= b * c + c);
    }
    let base = batch * count;
    while k < count
        invariant
            k <= count,
            count <= validation_document_count,
            base == batch * count,
            base + count <= usize::MAX,
            batch == completed_step_count / validation_step_interval,
            count == evaluation_document_count(validation_evaluation_document_count, validation_document_count),
            indices@ == validation_indices(
                completed_step_count,
                validation_step_interval,
                validation_evaluation_document_count,
                validation_document_count,
            ).take(k as int),
            forall|j: int| 0 <= j < indices@.len() ==> #[trigger] indices@[j] < validation_document_count,
        decreases count - k,
    {
        let index = (base + k) % validation_document_count;
        indices.push(index);
        k = k + 1;
        assert(indices@ =~= validation_indices(
            completed_step_count,
            validation_step_interval,
            validation_evaluation_document_count,
            validation_document_count,
        ).take(k as int));
    }
    assert(indices@ =~= validation_indices(
        completed_step_count,
        validation_step_interval,
        validation_evaluation_document_count,
        validation_document_count,
    ));
    indices
}

// ---------------------------------------------------------------------------
// Training in chunks
// ---------------------------------------------------------------------------

/// What follows a training step: whether validation loss is measured now,
/// and the step at which it is measured next.
#[derive(Clone, Copy, Debug, PartialEq, Eq, Structural)]
pub struct ValidationDecision {
    pub measure_validation: bool,
    pub next_validation_step: usize,
}

/// After a training step: once the completed step count reaches the
/// scheduled validation step, validation loss is measured and the next
/// measurement is scheduled one interval later.
pub fn validation_after_step(
    completed_step_count: usize,
    next_validation_step: usize,
    validation_step_interval: usize,
) -> (decision: ValidationDecision)
    requires
        completed_step_count >= next_validation_step ==> next_validation_step + validation_step_interval <= usize::MAX,
    ensures
        decision.measure_validation == (completed_step_count >= next_validation_step),
        decision.next_validation_step == if decision.measure_validation {
            next_validation_step + validation_step_interval
        } else {
            next_validation_step as int
        },
        validation_step_interval > 0 && next_validation_step % validation_step_interval == 0
            ==> decision.next_validation_step % validation_step_interval == 0,
{
    if completed_step_count >= next_validation_step {
        proof {
            if validation_step_interval > 0 {
                vstd::arithmetic::div_mod::lemma_add_mod_noop(
                    next_validation_step as int,
                    validation_step_interval as int,
                    validation_step_interval as int,
                );
                vstd::arithmetic::div_mod::lemma_mod_self_0(validation_step_interval as int);
                vstd::arithmetic::div_mod::lemma_small_mod(0, validation_step_interval as nat);
            }
        }
        ValidationDecision {
            measure_validation: true,
            next_validation_step: next_validation_step + validation_step_interval,
        }
    } else {
        ValidationDecision { measure_validation: false, next_validation_step }
    }
}

/// A chunk of training stops after a step when the session is complete,
/// when validation loss was just measured, when the next validation step is
/// reached, or when the chunk's time budget is spent.
pub fn training_chunk_should_stop(
    session_complete: bool,
    validation_measured: bool,
    completed_step_count: usize,
    next_validation_step: usize,
    budget_spent: bool,
) -> (stop: bool)
    ensures
        stop == (session_complete || validation_measured || completed_step_count >= next_validation_step
            || budget_spent),
{
    session_complete || validation_measured || completed_step_count >= next_validation_step || budget_spent
}

} // verus!
