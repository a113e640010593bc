use vstd::prelude::*;

use crate::decimal::{
    desired_beats, desired_length_bounds, is_power_of_two, desired_total, fixed4_text, hundredths_text, lemma_nat_text_injective,
    lemma_nat_text_nonempty, nat_text, number_text, round_half_even, sum_text, sum_to_text, Decimal,
    UNITS_PER_ONE,
};
use crate::event_history::{
    break_mark, ends_with_sample, sequence_of, silence_mark, EventHistory, SequentialEvent, StepView,
};
use rand::seq::IteratorRandom;
use vstd::string::{StrSliceExecFns, StringExecFns};

verus! {

/// The values of a list of steps.
pub open spec fn steps_of(v: Seq<SequentialEvent>) -> Seq<StepView> {
    v.map_values(|e: SequentialEvent| e@)
}

/// The beats reserved by all steps, in units.
pub open spec fn total_reserved(s: Seq<StepView>) -> int
    decreases s.len(),
{
    if s.len() == 0 {
        0
    } else {
        total_reserved(s.drop_last()) + s.last().reserved
    }
}

/// Largest total, in units, that a rendered loop can hold.
pub const MAX_TOTAL_UNITS: u128 = 9223372036854775808000000000;

/// Units added to the last step so the loop fills its power-of-two length.
pub open spec fn padding(s: Seq<StepView>) -> int {
    UNITS_PER_ONE * desired_beats(total_reserved(s)) - total_reserved(s)
}

/// The padding that step `i` receives: all of it for the last step.
pub open spec fn bonus_at(s: Seq<StepView>, i: int) -> int {
    if i == s.len() - 1 { padding(s) } else { 0 }
}

/// The length written for step `i`: what it reserves plus its padding.
pub open spec fn written_length(s: Seq<StepView>, i: int) -> int {
    s[i].reserved + bonus_at(s, i)
}

/// The lengths written for the first `n` steps, added up.
pub open spec fn written_total(s: Seq<StepView>, n: int) -> int
    decreases n,
{
    if n <= 0 {
        0
    } else {
        written_total(s, n - 1) + written_length(s, n - 1)
    }
}

proof fn lemma_written_prefix(s: Seq<StepView>, n: int)
    requires
        0 <= n < s.len(),
    ensures
        written_total(s, n) == total_reserved(s.subrange(0, n)),
    decreases n,
{
    if n == 0 {
        assert(s.subrange(0, 0) =~= Seq::<StepView>::empty());
    } else {
        lemma_written_prefix(s, n - 1);
        assert(s.subrange(0, n).drop_last() =~= s.subrange(0, n - 1));
    }
}

/// For every non-empty performance the written lengths add up to the loop's
/// length: a power of two, at least four beats, and no shorter than the beats
/// played.
pub proof fn loop_length_law(s: Seq<StepView>)
    requires
        s.len() > 0,
        forall|i: int| 0 <= i < s.len() ==> #[trigger] s[i].reserved >= 0,
    ensures
        written_total(s, s.len() as int) == UNITS_PER_ONE * desired_beats(total_reserved(s)),
        is_power_of_two(desired_beats(total_reserved(s))),
        desired_beats(total_reserved(s)) >= 4,
        written_total(s, s.len() as int) >= total_reserved(s),
{
    let n = s.len() as int;
    lemma_written_prefix(s, n - 1);
    assert(s.subrange(0, n - 1) =~= s.drop_last());
    lemma_total_grows(s, n);
    assert(s.subrange(0, n) =~= s);
    desired_length_bounds(total_reserved(s));
}

/// A step written out with `bonus` units of padding: `<representation>:<beats>`;
/// a loop boundary that takes time is followed by a silence for that time. A
/// held note adds its sustain, and when the performance does not end on a
/// sample every note also rings through its own slot.
pub open spec fn written_step(t: StepView, bonus: int, ends_on_sample: bool) -> Seq<char> {
    let full = t.reserved + bonus;
    let length = sum_text(t.reserved as nat, bonus as nat);
    let base = if t.representation != break_mark() {
        t.representation + seq![':'] + length
    } else if full != 0 {
        break_mark() + seq![' '] + silence_mark() + seq![':'] + length
    } else {
        t.representation
    };
    let with_sustain = match t.sustain {
        Some(d) => base + seq![',', 's', 'u', 's'] + fixed4_text(
            round_half_even(d, 10_000_000) as nat,
        ),
        None => base,
    };
    if !ends_on_sample && t.representation != break_mark() && t.representation != silence_mark() {
        with_sustain + seq![',', 's', 'u', 's', '*'] + length
    } else {
        with_sustain
    }
}

/// Steps that last no time are left out when they are silences, or loop
/// boundaries that end the loop.
pub open spec fn kept_step(t: StepView, bonus: int, is_last: bool) -> bool {
    !(t.reserved + bonus == 0 && (t.representation == silence_mark() || (is_last
        && t.representation == break_mark())))
}

/// The texts of the kept steps among the first `n`.
pub open spec fn kept_texts(s: Seq<StepView>, n: int, ends_on_sample: bool) -> Seq<Seq<char>>
    decreases n,
{
    if n <= 0 {
        Seq::empty()
    } else if kept_step(s[n - 1], bonus_at(s, n - 1), n - 1 == s.len() - 1) {
        kept_texts(s, n - 1, ends_on_sample).push(
            written_step(s[n - 1], bonus_at(s, n - 1), ends_on_sample),
        )
    } else {
        kept_texts(s, n - 1, ends_on_sample)
    }
}

/// `parts` joined with `sep` between neighbours.
pub open spec fn join_with(parts: Seq<Seq<char>>, sep: Seq<char>) -> Seq<char>
    decreases parts.len(),
{
    if parts.len() == 0 {
        Seq::empty()
    } else if parts.len() == 1 {
        parts[0]
    } else {
        join_with(parts.drop_last(), sep) + sep + parts.last()
    }
}

/// All kept steps, written out and separated by spaces.
pub open spec fn notes_text(s: Seq<StepView>, ends_on_sample: bool) -> Seq<char> {
    join_with(kept_texts(s, s.len() as int, ends_on_sample), seq![' '])
}

proof fn lemma_total_grows(s: Seq<StepView>, k: int)
    requires
        0 <= k <= s.len(),
        forall|i: int| 0 <= i < s.len() ==> #[trigger] s[i].reserved >= 0,
    ensures
        0 <= total_reserved(s.subrange(0, k)) <= total_reserved(s),
    decreases s.len(),
{
    if s.len() > 0 {
        let d = s.drop_last();
        assert forall|i: int| 0 <= i < d.len() implies #[trigger] d[i].reserved >= 0 by {
            assert(d[i] == s[i]);
        }
        if k == s.len() {
            assert(s.subrange(0, k) =~= s);
            lemma_total_grows(d, k - 1);
            assert(d.subrange(0, k - 1) =~= d);
        } else {
            lemma_total_grows(d, k);
            assert(d.subrange(0, k) =~= s.subrange(0, k));
        }
    }
}

/// Sums the beats reserved by all steps.
fn total_beats(sequence: &Vec<SequentialEvent>) -> (r: Decimal)
    requires
        total_reserved(steps_of(sequence@)) <= MAX_TOTAL_UNITS,
    ensures
        r.units == total_reserved(steps_of(sequence@)),
{
    let ghost s = steps_of(sequence@);
    let mut total: u128 = 0;
    let mut i: usize = 0;
    while i < sequence.len()
        invariant
            s == steps_of(sequence@),
            total_reserved(s) <= MAX_TOTAL_UNITS,
            i <= sequence@.len(),
            total == total_reserved(s.subrange(0, i as int)),
        decreases sequence@.len() - i,
    {
        proof {
            assert forall|k: int| 0 <= k < s.len() implies #[trigger] s[k].reserved >= 0 by {}
            lemma_total_grows(s, i + 1);
            assert(s.subrange(0, i + 1).drop_last() =~= s.subrange(0, i as int));
        }
        total = total + sequence[i].reserved_beats.units;
        i = i + 1;
    }
    assert(s.subrange(0, i as int) =~= s);
    Decimal { units: total }
}

/// Writes one step out, with `bonus` units of padding.
fn write_step(step: &SequentialEvent, bonus: Decimal, ends_on_sample: bool) -> (r: String)
    requires
        step.reserved_beats.units + bonus.units <= u128::MAX,
    ensures
        r@ == written_step(step@, bonus.units as int, ends_on_sample),
{
    proof {
        reveal_strlit(".");
        reveal_strlit("x");
        reveal_strlit(":");
        reveal_strlit(". x:");
        reveal_strlit(",sus");
        reveal_strlit(",sus*");
        assert("."@ =~= break_mark());
        assert("x"@ =~= silence_mark());
        assert(":"@ =~= seq![':']);
        assert(". x:"@ =~= break_mark() + seq![' '] + silence_mark() + seq![':']);
        assert(",sus"@ =~= seq![',', 's', 'u', 's']);
        assert(",sus*"@ =~= seq![',', 's', 'u', 's', '*']);
    }
    let length = sum_to_text(step.reserved_beats, bonus);
    let full = step.reserved_beats.units + bonus.units;
    let is_break = step.representation == String::from_str(".");
    let is_silence = step.representation == String::from_str("x");
    let mut text = if !is_break {
        let mut t = step.representation.clone();
        t.append(":");
        t.append(length.as_str());
        t
    } else if full != 0 {
        let mut t = String::from_str(". x:");
        t.append(length.as_str());
        t
    } else {
        step.representation.clone()
    };
    match step.sustain_beats {
        Some(d) => {
            text.append(",sus");
            text.append(hundredths_text(d).as_str());
        },
        None => {},
    }
    if !ends_on_sample && !is_break && !is_silence {
        text.append(",sus*");
        text.append(length.as_str());
    }
    text
}

/// Writes all kept steps, separated by spaces, the last one padded to the
/// loop's length.
pub fn write_notes(sequence: &Vec<SequentialEvent>, ends_on_sample: bool) -> (r: String)
    requires
        total_reserved(steps_of(sequence@)) <= MAX_TOTAL_UNITS,
    ensures
        r@ == notes_text(steps_of(sequence@), ends_on_sample),
{
    let ghost s = steps_of(sequence@);
    let total = total_beats(sequence);
    let desired = desired_total(total);
    let difference = desired.units - total.units;
    assert(difference == padding(s));
    let n = sequence.len();
    let mut notes = String::new();
    let mut count: usize = 0;
    let mut i: usize = 0;
    while i < n
        invariant
            s == steps_of(sequence@),
            n == s.len(),
            i <= n,
            difference == padding(s),
            difference + total.units == desired.units,
            total.units == total_reserved(s),
            notes@ == join_with(kept_texts(s, i as int, ends_on_sample), seq![' ']),
            count == kept_texts(s, i as int, ends_on_sample).len(),
            count <= i,
        decreases n - i,
    {
        let bonus = if i == n - 1 {
            proof {
                assert forall|k: int| 0 <= k < s.len() implies #[trigger] s[k].reserved >= 0 by {}
                lemma_total_grows(s.drop_last(), (s.len() - 1) as int);
                assert(s.drop_last().subrange(0, s.len() - 1) =~= s.drop_last());
            }
            Decimal { units: difference }
        } else {
            Decimal { units: 0 }
        };
        assert(bonus.units == bonus_at(s, i as int));
        let step = &sequence[i];
        assert(step@ == s[i as int]);
        let no_time = step.reserved_beats.units + bonus.units == 0;
        let kept = !(no_time && (step.representation == String::from_str("x") || (i == n - 1
            && step.representation == String::from_str("."))));
        proof {
            reveal_strlit("x");
            reveal_strlit(".");
            reveal_strlit(" ");
            assert("x"@ =~= silence_mark());
            assert("."@ =~= break_mark());
            assert(" "@ =~= seq![' ']);
            assert(kept == kept_step(s[i as int], bonus_at(s, i as int), i == s.len() - 1));
        }
        let ghost before = kept_texts(s, i as int, ends_on_sample);
        if kept {
            let text = write_step(step, bonus, ends_on_sample);
            if count > 0 {
                notes.append(" ");
            }
            notes.append(text.as_str());
            proof {
                let after = before.push(text@);
                assert(after.drop_last() =~= before);
                assert(kept_texts(s, i + 1, ends_on_sample) == after);
            }
            count = count + 1;
        } else {
            assert(kept_texts(s, i + 1, ends_on_sample) == before);
        }
        i = i + 1;
    }
    notes
}

/// A segment boundary (` . `) starts at `k`.
pub open spec fn is_separator_at(t: Seq<char>, k: int) -> bool {
    0 <= k && k + 3 <= t.len() && t[k] == ' ' && t[k + 1] == '.' && t[k + 2] == ' '
}

/// The first segment boundary at or after `from`.
pub open spec fn find_separator(t: Seq<char>, from: int) -> Option<int>
    decreases t.len() - from,
{
    if from < 0 || from + 3 > t.len() {
        None
    } else if is_separator_at(t, from) {
        Some(from)
    } else {
        find_separator(t, from + 1)
    }
}

/// The pieces of `t` from `from` on between segment boundaries.
pub open spec fn segments_from(t: Seq<char>, from: int) -> Seq<Seq<char>>
    decreases t.len() - from,
{
    match find_separator(t, from) {
        Some(k) => if from <= k && k + 3 <= t.len() {
            seq![t.subrange(from, k)] + segments_from(t, k + 3)
        } else {
            Seq::empty()
        },
        None => seq![t.subrange(from, t.len() as int)],
    }
}

proof fn lemma_separator_found(t: Seq<char>, from: int)
    ensures
        find_separator(t, from) matches Some(k) ==> from <= k && is_separator_at(t, k),
    decreases t.len() - from,
{
    if from >= 0 && from + 3 <= t.len() && !is_separator_at(t, from) {
        lemma_separator_found(t, from + 1);
    }
}

/// Splits `notes` at every ` . `, as `str::split` does.
pub fn split_segments(notes: &String) -> (r: Vec<String>)
    ensures
        r@.map_values(|x: String| x@) == segments_from(notes@, 0),
{
    let text = notes.as_str();
    let ghost t = notes@;
    let n = text.unicode_len();
    let mut parts: Vec<String> = Vec::new();
    let mut start: usize = 0;
    let mut i: usize = 0;
    while i < n
        invariant
            t == text@,
            n == t.len(),
            start <= i <= n,
            find_separator(t, start as int) == find_separator(t, i as int),
            parts@.map_values(|x: String| x@) + segments_from(t, start as int) == segments_from(t, 0),
        decreases n - i,
    {
        if 3 <= n - i && text.get_char(i) == ' ' && text.get_char(i + 1) == '.' && text.get_char(i + 2) == ' ' {
            let piece = String::from_str(text.substring_char(start, i));
            let ghost before = parts@.map_values(|x: String| x@);
            proof {
                lemma_separator_found(t, start as int);
                assert(segments_from(t, start as int) == seq![t.subrange(start as int, i as int)] + segments_from(t, i + 3));
                assert(before.push(piece@) + segments_from(t, i + 3) =~= before + segments_from(t, start as int));
            }
            parts.push(piece);
            assert(parts@.map_values(|x: String| x@) =~= before.push(piece@));
            i = i + 3;
            start = i;
        } else {
            i = i + 1;
        }
    }
    let last = String::from_str(text.substring_char(start, n));
    let ghost before = parts@.map_values(|x: String| x@);
    assert(segments_from(t, start as int) == seq![t.subrange(start as int, n as int)]);
    parts.push(last);
    assert(parts@.map_values(|x: String| x@) =~= before.push(last@));
    assert(parts@.map_values(|x: String| x@) =~= segments_from(t, 0));
    parts
}

/// The line that defines a segment: `$<id> = <segment>`.
pub open spec fn definition_line(segment: Seq<char>, id: Seq<char>) -> Seq<char> {
    seq!['$'] + id + seq![' ', '=', ' '] + segment
}

/// How a segment is referred to: `$<id>`.
pub open spec fn reference(id: Seq<char>) -> Seq<char> {
    seq!['$'] + id
}

/// One definition line per segment, then a line that plays them in order.
pub open spec fn multiline_text(segments: Seq<Seq<char>>, ids: Seq<Seq<char>>) -> Seq<char> {
    join_with(
        Seq::new(segments.len(), |i: int| definition_line(segments[i], ids[i])),
        seq!['\n'],
    ) + seq!['\n'] + join_with(Seq::new(ids.len(), |i: int| reference(ids[i])), seq![' '])
}

proof fn lemma_join_push(parts: Seq<Seq<char>>, sep: Seq<char>, next: Seq<char>)
    ensures
        join_with(parts.push(next), sep) == if parts.len() == 0 {
            next
        } else {
            join_with(parts, sep) + sep + next
        },
{
    assert(parts.push(next).drop_last() =~= parts);
    if parts.len() == 0 {
        assert(parts.push(next)[0] == next);
    }
}

/// Writes each segment as a definition under its id, then the line that
/// plays all of them.
pub fn render_segments(segments: &Vec<String>, ids: &Vec<String>) -> (r: String)
    requires
        segments@.len() == ids@.len(),
    ensures
        r@ == multiline_text(
            segments@.map_values(|x: String| x@),
            ids@.map_values(|x: String| x@),
        ),
{
    let ghost sv = segments@.map_values(|x: String| x@);
    let ghost iv = ids@.map_values(|x: String| x@);
    proof {
        reveal_strlit("$");
        reveal_strlit(" = ");
        reveal_strlit("\n");
        reveal_strlit(" ");
        assert("$"@ =~= seq!['$']);
        assert(" = "@ =~= seq![' ', '=', ' ']);
        assert("\n"@ =~= seq!['\n']);
        assert(" "@ =~= seq![' ']);
    }
    let mut lines = String::new();
    let mut refs = String::new();
    let mut i: usize = 0;
    while i < segments.len()
        invariant
            segments@.len() == ids@.len(),
            sv == segments@.map_values(|x: String| x@),
            iv == ids@.map_values(|x: String| x@),
            i <= segments@.len(),
            "$"@ == seq!['$'],
            " = "@ == seq![' ', '=', ' '],
            "\n"@ == seq!['\n'],
            " "@ == seq![' '],
            lines@ == join_with(
                Seq::new(i as nat, |k: int| definition_line(sv[k], iv[k])),
                seq!['\n'],
            ),
            refs@ == join_with(Seq::new(i as nat, |k: int| reference(iv[k])), seq![' ']),
        decreases segments@.len() - i,
    {
        let ghost defs = Seq::new(i as nat, |k: int| definition_line(sv[k], iv[k]));
        let ghost uses = Seq::new(i as nat, |k: int| reference(iv[k]));
        if i > 0 {
            lines.append("\n");
            refs.append(" ");
        }
        lines.append("$");
        lines.append(ids[i].as_str());
        lines.append(" = ");
        lines.append(segments[i].as_str());
        refs.append("$");
        refs.append(ids[i].as_str());
        proof {
            lemma_join_push(defs, seq!['\n'], definition_line(sv[i as int], iv[i as int]));
            lemma_join_push(uses, seq![' '], reference(iv[i as int]));
            assert(defs.push(definition_line(sv[i as int], iv[i as int])) =~= Seq::new(
                (i + 1) as nat,
                |k: int| definition_line(sv[k], iv[k]),
            ));
            assert(uses.push(reference(iv[i as int])) =~= Seq::new(
                (i + 1) as nat,
                |k: int| reference(iv[k]),
            ));
        }
        i = i + 1;
    }
    lines.append("\n");
    lines.append(refs.as_str());
    lines
}

/// The characters segment ids are drawn from.
pub open spec fn id_alphabet() -> Seq<char> {
    seq![
        'a', 'b', 'c', 'd', 'e', 'f', 'g', 'h', 'i', 'j', 'k', 'l', 'm', 'n', 'o', 'p', 'q',
        'r', 's', 't', 'u', 'v', 'x', 'y', 'z', '_',
    ]
}

/// Six characters drawn from the alphabet.
pub open spec fn is_drawn_id(id: Seq<char>) -> bool {
    id.len() == 6 && forall|i: int| 0 <= i < 6 ==> id_alphabet().contains(#[trigger] id[i])
}

/// The id of segment `k`: a drawn id, followed by `k` where the drawn one was
/// already taken.
pub open spec fn is_segment_id(id: Seq<char>, k: int) -> bool {
    is_drawn_id(id) || (id.len() > 6 && is_drawn_id(id.subrange(0, 6)) && id.subrange(
        6,
        id.len() as int,
    ) == nat_text(k as nat))
}

/// `ids` suit `count` segments: one each, well formed, no two alike.
pub open spec fn valid_ids(ids: Seq<Seq<char>>, count: int) -> bool {
    &&& ids.len() == count
    &&& forall|k: int| 0 <= k < ids.len() ==> is_segment_id(#[trigger] ids[k], k)
    &&& forall|a: int, b: int| 0 <= a < b < ids.len() ==> #[trigger] ids[a] != #[trigger] ids[b]
}

/// `text` renders `s` in segments under the ids `ids`.
pub open spec fn rendered_with(
    s: Seq<StepView>,
    ends_on_sample: bool,
    ids: Seq<Seq<char>>,
    text: Seq<char>,
) -> bool {
    let segments = segments_from(notes_text(s, ends_on_sample), 0);
    valid_ids(ids, segments.len() as int) && text == multiline_text(segments, ids)
}

/// `text` renders `s` in segments under some valid ids.
pub open spec fn renders(s: Seq<StepView>, ends_on_sample: bool, text: Seq<char>) -> bool {
    exists|ids: Seq<Seq<char>>| #[trigger] rendered_with(s, ends_on_sample, ids, text)
}

/// Relies on rand's `IteratorRandom::choose` with the thread-local generator:
/// it returns one of the iterator's items, and `None` only when there is none.
#[verifier::external_body]
fn choose_char(alphabet: &str) -> (r: char)
    requires
        alphabet@.len() > 0,
    ensures
        alphabet@.contains(r),
{
    alphabet.chars().choose(&mut rand::thread_rng()).unwrap()
}

/// Relies on `String::push`: appends one character.
#[verifier::external_body]
fn push_char(s: &mut String, c: char)
    ensures
        final(s)@ == old(s)@.push(c),
{
    s.push(c)
}

/// Draws a random six-character id.
fn draw_id() -> (r: String)
    ensures
        is_drawn_id(r@),
{
    let alphabet = "abcdefghijklmnopqrstuvxyz_";
    proof {
        reveal_strlit("abcdefghijklmnopqrstuvxyz_");
        assert(alphabet@ =~= id_alphabet());
    }
    let mut id = String::new();
    let mut i: usize = 0;
    while i < 6
        invariant
            alphabet@ == id_alphabet(),
            i <= 6,
            id@.len() == i,
            forall|k: int| 0 <= k < i ==> id_alphabet().contains(#[trigger] id@[k]),
        decreases 6 - i,
    {
        let c = choose_char(alphabet);
        push_char(&mut id, c);
        i = i + 1;
    }
    id
}

/// Draws one id per segment, making each unique.
fn draw_ids(count: usize) -> (r: Vec<String>)
    ensures
        valid_ids(r@.map_values(|x: String| x@), count as int),
{
    let mut ids: Vec<String> = Vec::new();
    let mut k: usize = 0;
    while k < count
        invariant
            k <= count,
            ids@.len() == k,
            valid_ids(ids@.map_values(|x: String| x@), k as int),
            forall|m: int|
                0 <= m < k ==> (#[trigger] ids@[m])@.len() == 6 || ids@[m]@.subrange(
                    6,
                    ids@[m]@.len() as int,
                ) == nat_text(m as nat),
        decreases count - k,
    {
        let ghost before = ids@.map_values(|x: String| x@);
        let drawn = draw_id();
        let mut taken = false;
        let mut j: usize = 0;
        while j < ids.len()
            invariant
                j <= ids@.len(),
                !taken ==> forall|m: int| 0 <= m < j ==> (#[trigger] ids@[m])@ != drawn@,
            decreases ids@.len() - j,
        {
            if ids[j] == drawn {
                taken = true;
            }
            j = j + 1;
        }
        let id = if taken {
            let mut extended = drawn.clone();
            let suffix = number_text(k as u64);
            extended.append(suffix.as_str());
            proof {
                lemma_nat_text_nonempty(k as nat);
                assert(extended@.subrange(0, 6) =~= drawn@);
                assert(extended@.subrange(6, extended@.len() as int) =~= nat_text(k as nat));
                assert forall|m: int| 0 <= m < k implies (#[trigger] ids@[m])@ != extended@ by {
                    if ids@[m]@.len() != 6 && ids@[m]@ == extended@ {
                        lemma_nat_text_injective(m as nat, k as nat);
                    }
                }
            }
            extended
        } else {
            drawn
        };
        ids.push(id);
        proof {
            let after = ids@.map_values(|x: String| x@);
            assert(after =~= before.push(id@));
            assert forall|a: int, b: int| 0 <= a < b < after.len() implies #[trigger] after[a]
                != #[trigger] after[b] by {
                if b < k {
                    assert(before[a] != before[b]);
                }
            }
        }
        k = k + 1;
    }
    ids
}

/// Renders a performance as notation: one line per segment between loop
/// boundaries, each under a fresh random id, then a line that plays them all.
pub fn stringify_history(sequence: Vec<SequentialEvent>, ends_on_sample: bool) -> (r: String)
    requires
        total_reserved(steps_of(sequence@)) <= MAX_TOTAL_UNITS,
    ensures
        renders(steps_of(sequence@), ends_on_sample, r@),
{
    let notes = write_notes(&sequence, ends_on_sample);
    let segments = split_segments(&notes);
    let ids = draw_ids(segments.len());
    let r = render_segments(&segments, &ids);
    assert(rendered_with(
        steps_of(sequence@),
        ends_on_sample,
        ids@.map_values(|x: String| x@),
        r@,
    ));
    r
}

/// Sums the beats reserved by all steps, or `None` where the sum exceeds
/// what a loop can hold.
fn checked_total(sequence: &Vec<SequentialEvent>) -> (r: Option<Decimal>)
    ensures
        r matches Some(d) ==> d.units == total_reserved(steps_of(sequence@)) && d.units
            <= MAX_TOTAL_UNITS,
        r is None ==> total_reserved(steps_of(sequence@)) > MAX_TOTAL_UNITS,
{
    let ghost s = steps_of(sequence@);
    let mut total: u128 = 0;
    let mut i: usize = 0;
    while i < sequence.len()
        invariant
            s == steps_of(sequence@),
            i <= sequence@.len(),
            total == total_reserved(s.subrange(0, i as int)),
            total <= MAX_TOTAL_UNITS,
        decreases sequence@.len() - i,
    {
        proof {
            assert(s.subrange(0, i + 1).drop_last() =~= s.subrange(0, i as int));
        }
        let units = sequence[i].reserved_beats.units;
        if units > MAX_TOTAL_UNITS - total {
            proof {
                assert forall|k: int| 0 <= k < s.len() implies #[trigger] s[k].reserved >= 0 by {}
                lemma_total_grows(s, i + 1);
            }
            return None;
        }
        total = total + units;
        i = i + 1;
    }
    assert(s.subrange(0, i as int) =~= s);
    Some(Decimal { units: total })
}

/// One render pass over a consistent snapshot of the log: quantizes it at
/// the given tempo and step, and writes the notation. `None` where the
/// performance is too long to fit in a loop.
pub fn render_history(history: &EventHistory, bpm: i64, quantization: Decimal) -> (r: Option<String>)
    requires
        bpm > 0,
        0 < quantization.units <= UNITS_PER_ONE,
    ensures
        r is None <==> total_reserved(sequence_of(history@, bpm as int, quantization.units as int))
            > MAX_TOTAL_UNITS,
        r matches Some(text) ==> renders(
            sequence_of(history@, bpm as int, quantization.units as int),
            ends_with_sample(history@),
            text@,
        ),
{
    let sequence = history.as_sequence(bpm, quantization);
    let ends_on_sample = history.ends_on_sample();
    proof {
        assert(steps_of(sequence@) == sequence_of(history@, bpm as int, quantization.units as int));
    }
    let ghost steps = steps_of(sequence@);
    match checked_total(&sequence) {
        Some(_) => {
            let text = stringify_history(sequence, ends_on_sample);
            proof {
                let ids = choose|ids: Seq<Seq<char>>|
                    rendered_with(steps, ends_on_sample, ids, text@);
                assert(rendered_with(steps, ends_on_sample, ids, text@));
            }
            Some(text)
        },
        None => None,
    }
}

/// The whole performance on one line: the steps in parentheses, then the
/// loop's length and the beats played.
pub open spec fn single_line_text(s: Seq<StepView>, ends_on_sample: bool) -> Seq<char> {
    seq!['('] + notes_text(s, ends_on_sample) + seq![')', ':', 'l', 'e', 'n'] + sum_text(
        (UNITS_PER_ONE * desired_beats(total_reserved(s))) as nat,
        0,
    ) + seq![',', 't', 'o', 't'] + sum_text(total_reserved(s) as nat, 0)
}

/// Renders a performance on a single line, with its length and total.
pub fn stringify_history_single_line(sequence: Vec<SequentialEvent>, ends_on_sample: bool) -> (r: String)
    requires
        total_reserved(steps_of(sequence@)) <= MAX_TOTAL_UNITS,
    ensures
        r@ == single_line_text(steps_of(sequence@), ends_on_sample),
{
    proof {
        reveal_strlit("(");
        reveal_strlit("):len");
        reveal_strlit(",tot");
        assert("("@ =~= seq!['(']);
        assert("):len"@ =~= seq![')', ':', 'l', 'e', 'n']);
        assert(",tot"@ =~= seq![',', 't', 'o', 't']);
    }
    let total = total_beats(&sequence);
    let desired = desired_total(total);
    let none = Decimal { units: 0 };
    let mut line = String::from_str("(");
    line.append(write_notes(&sequence, ends_on_sample).as_str());
    line.append("):len");
    line.append(sum_to_text(desired, none).as_str());
    line.append(",tot");
    line.append(sum_to_text(total, none).as_str());
    line
}

} // verus!
