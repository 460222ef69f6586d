use vstd::prelude::*;
use crate::format::{append_str, decimal, digit_char, u128_to_decimal, usize_to_decimal};
use crate::model::CharacterTokenizer;
use crate::text::push_char;

verus! {

// ---------------------------------------------------------------------------
// Elapsed training time
// ---------------------------------------------------------------------------

/// `n` in decimal, padded with a leading zero to two digits.
pub open spec fn two_digits(n: nat) -> Seq<char> {
    if n < 10 {
        seq!['0'] + decimal(n)
    } else {
        decimal(n)
    }
}

/// Elapsed training time as `Hh MMm SSs` when it reaches an hour, else as
/// `Mm SSs`, from whole seconds of the given milliseconds.
pub open spec fn elapsed_time_text(milliseconds: nat) -> Seq<char> {
    let total_seconds = milliseconds / 1000;
    let hours = total_seconds / 3600;
    let minutes = (total_seconds % 3600) / 60;
    let seconds = total_seconds % 60;
    if hours > 0 {
        decimal(hours) + "h "@ + two_digits(minutes) + "m "@ + two_digits(seconds) + "s"@
    } else {
        decimal(minutes) + "m "@ + two_digits(seconds) + "s"@
    }
}

/// `s` is a nonempty run of decimal digits.
pub open spec fn is_digits(s: Seq<char>) -> bool {
    &&& s.len() > 0
    &&& forall|i: int| 0 <= i < s.len() ==> '0' <= #[trigger] s[i] && s[i] <= '9'
}

/// The number a run of decimal digits reads as.
pub open spec fn digits_value(s: Seq<char>) -> nat
    decreases s.len(),
{
    if s.len() == 0 {
        0
    } else {
        digits_value(s.drop_last()) * 10 + (s.last() as nat - '0' as nat) as nat
    }
}

proof fn lemma_digit_reads_back(d: nat)
    requires
        d < 10,
    ensures
        '0' <= digit_char(d) && digit_char(d) <= '9',
        digit_char(d) as nat - '0' as nat == d,
        d > 0 ==> digit_char(d) != '0',
{
    assert(('0' as u32) == 48);
    assert(digit_char(d) as u32 == 48 + d);
}

proof fn lemma_decimal_reads_back(n: nat)
    ensures
        is_digits(decimal(n)),
        digits_value(decimal(n)) == n,
        n > 0 ==> decimal(n)[0] != '0',
    decreases n,
{
    if n >= 10 {
        lemma_decimal_reads_back(n / 10);
        lemma_digit_reads_back(n % 10);
        let d = decimal(n);
        assert(d.drop_last() == decimal(n / 10));
        assert(d[0] == decimal(n / 10)[0]);
        assert(d.last() == digit_char(n % 10));
        assert(digits_value(d) == digits_value(decimal(n / 10)) * 10 + (n % 10));
        assert(n == (n / 10) * 10 + n % 10);
    } else {
        lemma_digit_reads_back(n);
        let d = decimal(n);
        assert(d.drop_last() =~= Seq::<char>::empty());
        assert(d.last() == digit_char(n));
        assert(digits_value(d) == digits_value(d.drop_last()) * 10 + n);
    }
}

proof fn lemma_two_digits_read_back(n: nat)
    requires
        n < 100,
    ensures
        is_digits(two_digits(n)),
        two_digits(n).len() == 2,
        digits_value(two_digits(n)) == n,
{
    lemma_decimal_reads_back(n);
    if n < 10 {
        let t = two_digits(n);
        lemma_digit_reads_back(n);
        assert(t.drop_last() =~= seq!['0']);
        assert(seq!['0'].drop_last() =~= Seq::<char>::empty());
        assert(seq!['0'].last() == '0');
        assert(digits_value(seq!['0']) == digits_value(Seq::<char>::empty()) * 10 + ('0' as nat - '0' as nat) as nat);
        assert(digits_value(seq!['0']) == 0);
        assert(t.last() == digit_char(n));
        assert(digits_value(t) == digits_value(t.drop_last()) * 10 + n);
    } else {
        lemma_decimal_reads_back(n / 10);
        assert(decimal(n / 10).len() == 1);
    }
}

/// The elapsed time text reads back as the elapsed whole seconds: from an
/// hour on it is hours (without a leading zero), `h `, two digits of
/// minutes, `m `, two digits of seconds and `s`; below an hour it is
/// minutes (without a leading zero), `m `, two digits of seconds and `s`;
/// minutes and seconds stay below 60 and together with the hours they make
/// up `milliseconds / 1000` seconds.
pub proof fn lemma_elapsed_time_reads_back(milliseconds: nat)
    ensures
        ({
            let text = elapsed_time_text(milliseconds);
            let total = milliseconds / 1000;
            &&& total >= 3600 ==> exists|h: Seq<char>, m: Seq<char>, s: Seq<char>|
                #![trigger digits_value(h), digits_value(m), digits_value(s)]
                text == h + "h "@ + m + "m "@ + s + "s"@ && is_digits(h) && h[0] != '0' && is_digits(m)
                    && m.len() == 2 && is_digits(s) && s.len() == 2 && digits_value(m) < 60 && digits_value(s)
                    < 60 && digits_value(h) * 3600 + digits_value(m) * 60 + digits_value(s) == total
            &&& total < 3600 ==> exists|m: Seq<char>, s: Seq<char>| #![trigger digits_value(m), digits_value(s)]
                text == m + "m "@ + s + "s"@ && is_digits(m) && (m.len() == 1 || m[0] != '0') && is_digits(s)
                    && s.len() == 2 && digits_value(s)
                    < 60 && digits_value(m) * 60 + digits_value(s) == total
        }),
{
    let total = milliseconds / 1000;
    let hours = total / 3600;
    let minutes = (total % 3600) / 60;
    let seconds = total % 60;
    assert(hours * 3600 + minutes * 60 + seconds == total) by {
        vstd::arithmetic::div_mod::lemma_fundamental_div_mod(total as int, 3600);
        vstd::arithmetic::div_mod::lemma_fundamental_div_mod((total % 3600) as int, 60);
        vstd::arithmetic::div_mod::lemma_mod_mod(total as int, 60, 60);
        vstd::arithmetic::div_mod::lemma_mod_breakdown(total as int, 60, 60);
    }
    lemma_two_digits_read_back(seconds);
    if total >= 3600 {
        lemma_decimal_reads_back(hours);
        lemma_two_digits_read_back(minutes);
        let h = decimal(hours);
        let m = two_digits(minutes);
        let s = two_digits(seconds);
        assert(elapsed_time_text(milliseconds) == h + "h "@ + m + "m "@ + s + "s"@);
    } else {
        lemma_decimal_reads_back(minutes);
        let m = decimal(minutes);
        let s = two_digits(seconds);
        assert(elapsed_time_text(milliseconds) == m + "m "@ + s + "s"@);
    }
}

fn append_two_digits(s: &mut String, n: usize)
    ensures
        final(s)@ == old(s)@ + two_digits(n as nat),
{
    if n < 10 {
        push_char(s, '0');
    }
    let digits = usize_to_decimal(n);
    append_str(s, digits.as_str());
    assert(final(s)@ =~= old(s)@ + two_digits(n as nat));
}

/// Formats training time for display: `2h 03m 09s`, or `3m 09s` below an hour.
pub fn format_elapsed_training_time(milliseconds: u128) -> (text: String)
    ensures
        text@ == elapsed_time_text(milliseconds as nat),
{
    let total_seconds = milliseconds / 1_000;
    let hours = total_seconds / 3_600;
    let minutes = (total_seconds % 3_600) / 60;
    let seconds = total_seconds % 60;
    assert(hours == milliseconds / 3_600_000) by {
        vstd::arithmetic::div_mod::lemma_div_denominator(milliseconds as int, 1000, 3600);
    }
    let mut text = String::new();
    if hours > 0 {
        let hours_text = u128_to_decimal(hours);
        append_str(&mut text, hours_text.as_str());
        append_str(&mut text, "h ");
        append_two_digits(&mut text, minutes as usize);
        append_str(&mut text, "m ");
        append_two_digits(&mut text, seconds as usize);
        append_str(&mut text, "s");
    } else {
        let minutes_text = usize_to_decimal(minutes as usize);
        append_str(&mut text, minutes_text.as_str());
        append_str(&mut text, "m ");
        append_two_digits(&mut text, seconds as usize);
        append_str(&mut text, "s");
    }
    assert(text@ =~= elapsed_time_text(milliseconds as nat));
    text
}

// ---------------------------------------------------------------------------
// Counts
// ---------------------------------------------------------------------------

/// The unit a count is shown in.
#[derive(Clone, Copy, Debug, PartialEq, Eq, Structural)]
pub enum CountScale {
    Units,
    Thousands,
    Millions,
}

/// The unit of a count: millions from one million on, thousands from one
/// thousand on, single units below.
pub fn count_scale(value: usize) -> (scale: CountScale)
    ensures
        scale == (if value >= 1_000_000 {
            CountScale::Millions
        } else if value >= 1_000 {
            CountScale::Thousands
        } else {
            CountScale::Units
        }),
{
    if value >= 1_000_000 {
        CountScale::Millions
    } else if value >= 1_000 {
        CountScale::Thousands
    } else {
        CountScale::Units
    }
}

// ---------------------------------------------------------------------------
// Token labels
// ---------------------------------------------------------------------------

/// The short label of a token: `<B>` for the boundary, escapes for line
/// breaks and tabs, the character itself otherwise, `?` for an unknown id.
pub open spec fn token_label_text(unique_characters: Seq<char>, boundary: usize, token_id: usize) -> Seq<char> {
    if token_id == boundary {
        "<B>"@
    } else if token_id < unique_characters.len() {
        let c = unique_characters[token_id as int];
        if c == '\n' {
            "\\n"@
        } else if c == '\t' {
            "\\t"@
        } else {
            seq![c]
        }
    } else {
        "?"@
    }
}

/// The short label of a token for tables of tokens.
pub fn token_label(tokenizer: &CharacterTokenizer, token_id: usize) -> (label: String)
    ensures
        label@ == token_label_text(tokenizer.unique_characters@, tokenizer.sequence_boundary_token_id, token_id),
{
    if token_id == tokenizer.sequence_boundary_token_id {
        return String::from_str("<B>");
    }
    if token_id < tokenizer.unique_characters.len() {
        let c = tokenizer.unique_characters[token_id];
        if c == '\n' {
            return String::from_str("\\n");
        }
        if c == '\t' {
            return String::from_str("\\t");
        }
        let mut label = String::new();
        push_char(&mut label, c);
        assert(label@ =~= seq![c]);
        return label;
    }
    String::from_str("?")
}

/// The long description of a token: its id and what it stands for.
pub open spec fn token_title_text(unique_characters: Seq<char>, boundary: usize, token_id: usize) -> Seq<char> {
    let head = "token "@ + decimal(token_id as nat) + ": "@;
    if token_id == boundary {
        head + "sequence boundary"@
    } else if token_id < unique_characters.len() {
        let c = unique_characters[token_id as int];
        if c == ' ' {
            head + "space"@
        } else {
            head + seq!['\''] + seq![c] + seq!['\'']
        }
    } else {
        head + "unknown"@
    }
}

/// The long description of a token, shown on hover.
pub fn token_title(tokenizer: &CharacterTokenizer, token_id: usize) -> (title: String)
    ensures
        title@ == token_title_text(tokenizer.unique_characters@, tokenizer.sequence_boundary_token_id, token_id),
{
    let mut title = String::from_str("token ");
    let id_text = usize_to_decimal(token_id);
    append_str(&mut title, id_text.as_str());
    append_str(&mut title, ": ");
    let ghost head = title@;
    if token_id == tokenizer.sequence_boundary_token_id {
        append_str(&mut title, "sequence boundary");
    } else if token_id < tokenizer.unique_characters.len() {
        let c = tokenizer.unique_characters[token_id];
        if c == ' ' {
            append_str(&mut title, "space");
        } else {
            push_char(&mut title, '\'');
            push_char(&mut title, c);
            push_char(&mut title, '\'');
            assert(title@ =~= head + seq!['\''] + seq![c] + seq!['\'']);
        }
    } else {
        append_str(&mut title, "unknown");
    }
    title
}

// ---------------------------------------------------------------------------
// Embedding table columns
// ---------------------------------------------------------------------------

/// The embedding columns labelled in the embedding table: all of them up to
/// sixteen, otherwise every `size / 8`-th one and the last one.
pub open spec fn column_ticks(embedding_size: nat) -> Seq<nat> {
    if embedding_size <= 16 {
        Seq::new(embedding_size, |i: int| i as nat)
    } else {
        let step = embedding_size / 8;
        let count = ((embedding_size + step - 1) as nat / step) as nat;
        let ticks = Seq::new(count, |i: int| (i * step) as nat);
        if ticks.contains((embedding_size - 1) as nat) {
            ticks
        } else {
            ticks.push((embedding_size - 1) as nat)
        }
    }
}

/// The embedding columns that get a label in the embedding table.
pub fn embedding_column_ticks(embedding_size: usize) -> (ticks: Vec<usize>)
    ensures
        ticks@.map_values(|t: usize| t as nat) == column_ticks(embedding_size as nat),
{
    let mut ticks: Vec<usize> = Vec::new();
    if embedding_size <= 16 {
        let mut i: usize = 0;
        while i < embedding_size
            invariant
                i <= embedding_size,
                ticks@.len() == i,
                forall|j: int| 0 <= j < i ==> #[trigger] ticks@[j] == j,
            decreases embedding_size - i,
        {
            ticks.push(i);
            i = i + 1;
        }
        assert(ticks@.map_values(|t: usize| t as nat) =~= Seq::new(i as nat, |k: int| k as nat));
        return ticks;
    }
    let step = embedding_size / 8;
    let ghost count = ((embedding_size as nat + step as nat - 1) as nat / step as nat) as nat;
    let mut k: usize = 0;
    let mut position: usize = 0;
    let mut has_last = false;
    let mut more = true;
    proof {
        let si = step as int;
        let ei = embedding_size as int;
        assert((ei + si - 1) / si >= 1) by (nonlinear_arith)
            requires
                si >= 2,
                ei > 16,
        ;
    }
    while more
        invariant
            step == embedding_size / 8,
            step >= 2,
            embedding_size > 16,
            more ==> position == k * step,
            count == ((embedding_size as nat + step as nat - 1) as nat / step as nat) as nat,
            k <= count,
            more == (k < count),
            more ==> position < embedding_size,
            ticks@.map_values(|t: usize| t as nat) == Seq::new(k as nat, |i: int| (i * step) as nat),
            has_last == ticks@.map_values(|t: usize| t as nat).contains((embedding_size - 1) as nat),
        decreases count - k,
    {
        let ghost before = ticks@.map_values(|t: usize| t as nat);
        let ghost old_ticks = ticks@;
        ticks.push(position);
        if position == embedding_size - 1 {
            has_last = true;
        }
        proof {
            let after = ticks@.map_values(|t: usize| t as nat);
            assert(ticks@ =~= old_ticks.push(position));
            assert(after =~= before.push(position as nat));
            if after.contains((embedding_size - 1) as nat) && !before.contains((embedding_size - 1) as nat) {
                let j = choose|j: int| 0 <= j < after.len() && #[trigger] after[j] == (embedding_size - 1) as nat;
                assert(j == k);
            }
            if before.contains((embedding_size - 1) as nat) {
                let j = choose|j: int| 0 <= j < before.len() && #[trigger] before[j] == (embedding_size - 1) as nat;
                assert(after[j] == (embedding_size - 1) as nat);
            }
            if position == embedding_size - 1 {
                assert(after[k as int] == (embedding_size - 1) as nat);
            }
            assert(Seq::new((k + 1) as nat, |i: int| (i * step) as nat) =~= before.push(position as nat));
        }
        let ghost ki = k as int;
        let ghost si = step as int;
        let ghost ei = embedding_size as int;
        let ghost ci = count as int;
        proof {
            assert(((ki + 1) < ci) == ((ki + 1) * si < ei)) by (nonlinear_arith)
                requires
                    si >= 2,
                    ci == (ei + si - 1) / si,
                    ki * si < ei,
                    ki >= 0,
                    ei > 0,
            ;
            assert((ki + 1) * si == ki * si + si) by (nonlinear_arith);
            assert(ki < ei) by (nonlinear_arith)
                requires
                    ki * si < ei,
                    si >= 2,
                    ki >= 0,
            ;
        }
        k = k + 1;
        if embedding_size - position > step {
            position = position + step;
        } else {
            more = false;
        }
    }
    if !has_last {
        let ghost before = ticks@.map_values(|t: usize| t as nat);
        ticks.push(embedding_size - 1);
        assert(ticks@.map_values(|t: usize| t as nat) =~= before.push((embedding_size - 1) as nat));
    }
    ticks
}

} // verus!
