//! Putting the recognised segments of an utterance together into one text.

use crate::text;
use std::collections::BTreeMap;
use vstd::prelude::*;

verus! {

broadcast use vstd::laws_cmp::group_laws_cmp;

/// Whether the last `n` characters of `left` are the first `n` of `right`.
pub open spec fn overlaps_by(left: Seq<char>, right: Seq<char>, n: int) -> bool {
    &&& 0 <= n <= left.len()
    &&& n <= right.len()
    &&& left.skip(left.len() - n) == right.take(n)
}

/// The largest `n <= bound` of at least two by which `left` and `right` overlap, or zero.
pub open spec fn overlap_up_to(left: Seq<char>, right: Seq<char>, bound: int) -> int
    decreases bound,
{
    if bound < 2 {
        0
    } else if overlaps_by(left, right, bound) {
        bound
    } else {
        overlap_up_to(left, right, bound - 1)
    }
}

/// By how many characters the end of `left` and the start of `right` repeat each other. A
/// single common character is taken for a coincidence.
pub open spec fn overlap(left: Seq<char>, right: Seq<char>) -> int {
    overlap_up_to(left, right, vstd::math::min(left.len() as int, right.len() as int))
}

/// `left` continued by `right`, what they have in common written once.
pub open spec fn joined(left: Seq<char>, right: Seq<char>) -> Seq<char> {
    if left.len() == 0 {
        right
    } else {
        left + right.skip(overlap(left, right))
    }
}

/// All segments joined from the first to the last.
pub open spec fn merged(segments: Seq<Seq<char>>) -> Seq<char>
    decreases segments.len(),
{
    if segments.len() == 0 {
        Seq::empty()
    } else {
        joined(merged(segments.drop_last()), segments.last())
    }
}

/// The texts that a list of strings holds.
pub open spec fn string_views(strings: Seq<String>) -> Seq<Seq<char>> {
    Seq::new(strings.len(), |i: int| strings[i]@)
}

proof fn lemma_overlap_bounds(left: Seq<char>, right: Seq<char>, bound: int)
    requires
        bound <= left.len(),
        bound <= right.len(),
    ensures
        0 <= overlap_up_to(left, right, bound) <= vstd::math::max(bound, 0),
        overlap_up_to(left, right, bound) != 1,
        overlaps_by(left, right, overlap_up_to(left, right, bound)),
        forall|n: int| 2 <= n <= bound && #[trigger] overlaps_by(left, right, n) ==> n
            <= overlap_up_to(left, right, bound),
    decreases bound,
{
    if bound < 2 {
        assert(left.skip(left.len() as int) =~= right.take(0));
    } else if !overlaps_by(left, right, bound) {
        lemma_overlap_bounds(left, right, bound - 1);
    }
}

/// Whether the last `n` characters of `left` are the first `n` of `right`.
fn ends_with_start_of(left: &Vec<char>, right: &Vec<char>, n: usize) -> (yes: bool)
    requires
        n <= left@.len(),
        n <= right@.len(),
    ensures
        yes == overlaps_by(left@, right@, n as int),
{
    let start: usize = left.len() - n;
    let mut i: usize = 0;
    while i < n
        invariant
            n <= left.len(),
            start == left.len() - n,
            n <= right@.len(),
            i <= n,
            forall|j: int| 0 <= j < i ==> left@[start + j] == #[trigger] right@[j],
        decreases n - i,
    {
        if left[start + i] != right[i] {
            assert(left@.skip(start as int)[i as int] != right@.take(n as int)[i as int]);
            return false;
        }
        i += 1;
    }
    assert(left@.skip(start as int) =~= right@.take(n as int));
    true
}

/// How many characters of `right` repeat the end of `left`.
fn overlap_of(left: &Vec<char>, right: &Vec<char>) -> (n: usize)
    ensures
        n == overlap(left@, right@),
        n <= right@.len(),
{
    let mut n: usize = if left.len() <= right.len() {
        left.len()
    } else {
        right.len()
    };
    while n >= 2
        invariant
            n <= left@.len(),
            n <= right@.len(),
            overlap(left@, right@) == overlap_up_to(left@, right@, n as int),
        decreases n,
    {
        if ends_with_start_of(left, right, n) {
            return n;
        }
        n -= 1;
    }
    0
}

/// Merges text segments, writing what one segment repeats of the text before it only once.
pub fn merge_segments(segments: &[String]) -> (text: String)
    ensures
        text@ == merged(string_views(segments@)),
{
    let ghost views = string_views(segments@);
    let mut result: Vec<char> = Vec::new();
    let count: usize = segments.len();
    for i in 0..count
        invariant
            count == segments@.len(),
            views == string_views(segments@),
            result@ == merged(views.take(i as int)),
    {
        let segment = text::chars_of(segments[i].as_str());
        proof {
            assert(views.take(i + 1).drop_last() =~= views.take(i as int));
            assert(views.take(i + 1).last() == segment@);
        }
        let ghost before = result@;
        if result.len() == 0 {
            result = segment;
        } else {
            let skip: usize = overlap_of(&result, &segment);
            let mut j: usize = skip;
            while j < segment.len()
                invariant
                    skip <= j <= segment@.len(),
                    result@ == before + segment@.subrange(skip as int, j as int),
                decreases segment@.len() - j,
            {
                result.push(segment[j]);
                assert(segment@.subrange(skip as int, j + 1) =~= segment@.subrange(
                    skip as int,
                    j as int,
                ).push(segment@[j as int]));
                j += 1;
            }
            assert(segment@.subrange(skip as int, segment@.len() as int) =~= segment@.skip(
                skip as int,
            ));
        }
        assert(result@ == joined(before, segment@));
    }
    assert(views.take(count as int) =~= views);
    text::string_of(&result)
}

/// The texts that a table of strings holds.
pub open spec fn table_view(table: Map<i64, String>) -> Map<i64, Seq<char>> {
    table.map_values(|text: String| text@)
}

/// Every segment that has a text: the final one where there is one, else the interim one.
pub open spec fn combined(
    finals: Map<i64, Seq<char>>,
    partials: Map<i64, Seq<char>>,
) -> Map<i64, Seq<char>> {
    partials.union_prefer_right(finals)
}

/// `id` is the smallest of `ids`.
pub open spec fn is_least(ids: Set<i64>, id: i64) -> bool {
    ids.contains(id) && forall|other: i64| ids.contains(other) ==> id <= other
}

/// The texts of `table` from the smallest segment id to the largest.
pub open spec fn in_id_order(table: Map<i64, Seq<char>>) -> Seq<Seq<char>>
    decreases table.dom().len(),
{
    let first = choose|id: i64| is_least(table.dom(), id);
    if table.dom().finite() && is_least(table.dom(), first) {
        seq![table[first]] + in_id_order(table.remove(first))
    } else {
        Seq::empty()
    }
}

/// `ids` are strictly increasing.
pub open spec fn increasing(ids: Seq<i64>) -> bool {
    forall|i: int, j: int| 0 <= i < j < ids.len() ==> ids[i] < ids[j]
}

/// Segments come in the order of their ids: whatever increasing list names every id of the
/// table once, the texts under those ids are the texts in order.
pub proof fn segments_come_in_id_order(table: Map<i64, Seq<char>>, ids: Seq<i64>)
    requires
        increasing(ids),
        ids.to_set() == table.dom(),
    ensures
        in_id_order(table) == Seq::new(ids.len(), |i: int| table[ids[i]]),
    decreases ids.len(),
{
    broadcast use vstd::seq_lib::group_seq_properties;

    assert(table.dom().finite());
    let texts = Seq::new(ids.len(), |i: int| table[ids[i]]);
    if ids.len() == 0 {
        assert forall|id: i64| !#[trigger] is_least(table.dom(), id) by {
            assert(!ids.to_set().contains(id));
        }
        assert(in_id_order(table) =~= texts);
    } else {
        let first = ids[0];
        assert(is_least(table.dom(), first)) by {
            assert(ids.contains(first));
            assert forall|other: i64| table.dom().contains(other) implies first <= other by {
                assert(ids.contains(other));
                let k = choose|k: int| 0 <= k < ids.len() && ids[k] == other;
                assert(ids[0] <= ids[k]);
            }
        }
        let chosen = choose|id: i64| is_least(table.dom(), id);
        assert(chosen == first);
        let rest = ids.drop_first();
        assert(rest.to_set() =~= table.remove(first).dom()) by {
            assert forall|id: i64|
                rest.to_set().contains(id) == table.remove(first).dom().contains(id) by {
                if rest.contains(id) {
                    let k = choose|k: int| 0 <= k < rest.len() && rest[k] == id;
                    assert(ids[k + 1] == id);
                    assert(ids[0] < ids[k + 1]);
                    assert(ids.to_set().contains(id));
                }
                if table.remove(first).dom().contains(id) {
                    assert(ids.contains(id));
                    let k = choose|k: int| 0 <= k < ids.len() && ids[k] == id;
                    assert(rest[k - 1] == id);
                    assert(rest.contains(id));
                }
            }
        }
        segments_come_in_id_order(table.remove(first), rest);
        assert(in_id_order(table) =~= texts) by {
            assert forall|i: int| 0 <= i < rest.len() implies table.remove(
                first,
            )[#[trigger] rest[i]] == table[ids[i + 1]] by {
                assert(ids[0] < ids[i + 1]);
            }
        }
    }
}

/// Enters everything that `from` holds into `all`, over what stands there under the same id.
fn enter_all(all: &mut BTreeMap<i64, String>, from: &BTreeMap<i64, String>)
    ensures
        final(all)@ == old(all)@.union_prefer_right(from@),
{
    let ghost base = all@;
    for entry in it: from.iter()
        invariant
            forall|i: int|
                0 <= i < it.seq().len() ==> from@.contains_key(*(#[trigger] it.seq()[i]).0)
                    && from@[*it.seq()[i].0] == *it.seq()[i].1,
            forall|id: i64| #[trigger]
                all@.contains_key(id) <==> base.contains_key(id) || exists|i: int|
                    0 <= i < it.index() && *(#[trigger] it.seq()[i]).0 == id,
            forall|id: i64| #[trigger]
                all@.contains_key(id) ==> all@[id] == (if exists|i: int|
                    0 <= i < it.index() && *(#[trigger] it.seq()[i]).0 == id {
                    from@[id]
                } else {
                    base[id]
                }),
    {
        all.insert(*entry.0, entry.1.clone());
    }
    assert(all@ =~= base.union_prefer_right(from@));
}

/// The texts of both tables from the smallest segment id to the largest, a final text in
/// place of the interim one under the same id.
pub fn ordered_segments(
    finals: &BTreeMap<i64, String>,
    partials: &BTreeMap<i64, String>,
) -> (segments: Vec<String>)
    ensures
        string_views(segments@) == in_id_order(
            combined(table_view(finals@), table_view(partials@)),
        ),
{
    let mut all: BTreeMap<i64, String> = BTreeMap::new();
    enter_all(&mut all, partials);
    enter_all(&mut all, finals);
    let mut segments: Vec<String> = Vec::new();
    let ghost mut ids: Seq<i64> = Seq::empty();
    let entries = all.iter();
    proof {
        let pairs = vstd::std_specs::iter::IteratorSpec::remaining(&entries);
        let keys = pairs.map_values(|pair: (&i64, &String)| *pair.0);
        assert(vstd::std_specs::btree::increasing_seq(keys));
        assert forall|i: int, j: int| 0 <= i < j < pairs.len() implies *(
        #[trigger] pairs[i]).0 < *(#[trigger] pairs[j]).0 by {
            assert(vstd::std_specs::cmp::OrdSpec::cmp_spec(&keys[i], &keys[j]) is Less);
        }
    }
    for entry in it: entries
        invariant
            forall|i: int|
                0 <= i < it.seq().len() ==> all@[*it.seq()[i].0] == *(#[trigger] it.seq()[i]).1,
            forall|i: int, j: int|
                0 <= i < j < it.seq().len() ==> *(#[trigger] it.seq()[i]).0 < *(
                #[trigger] it.seq()[j]).0,
            forall|i: int|
                0 <= i < it.seq().len() ==> all@.contains_key(*(#[trigger] it.seq()[i]).0),
            forall|id: i64| #[trigger]
                all@.contains_key(id) ==> exists|i: int|
                    0 <= i < it.seq().len() && *(#[trigger] it.seq()[i]).0 == id,
            ids.len() == it.index(),
            segments@.len() == it.index(),
            forall|i: int| 0 <= i < ids.len() ==> #[trigger] ids[i] == *it.seq()[i].0,
            forall|i: int|
                0 <= i < ids.len() ==> (#[trigger] segments@[i])@ == all@[ids[i]]@,
            it.index() == it.seq().len() ==> ids.to_set() == all@.dom(),
    {
        segments.push(entry.1.clone());
        proof {
            ids = ids.push(*entry.0);
        }
        assert(ids.len() == it.seq().len() ==> ids.to_set() == all@.dom()) by {
            assert forall|id: i64|
                ids.len() == it.seq().len() && all@.contains_key(id) implies ids.to_set().contains(
                id,
            ) by {
                let i = choose|i: int| 0 <= i < it.seq().len() && *(#[trigger] it.seq()[i]).0 == id;
                assert(ids[i] == id);
            }
        }
    }
    proof {
        let table = combined(table_view(finals@), table_view(partials@));
        assert(table =~= table_view(all@));
        assert(table.dom() =~= all@.dom());
        segments_come_in_id_order(table, ids);
        assert(string_views(segments@) =~= in_id_order(table));
    }
    segments
}

/// `part` occurs in `whole` in one piece.
pub open spec fn occurs_in(part: Seq<char>, whole: Seq<char>) -> bool {
    exists|at: int|
        0 <= at <= whole.len() - part.len() && #[trigger] whole.subrange(at, at + part.len())
            == part
}

/// The overlap of two texts is one, is never a single character, and no longer one exists.
pub proof fn overlap_is_the_longest(left: Seq<char>, right: Seq<char>)
    ensures
        overlaps_by(left, right, overlap(left, right)),
        overlap(left, right) != 1,
        forall|n: int|
            n >= 2 && #[trigger] overlaps_by(left, right, n) ==> n <= overlap(left, right),
{
    lemma_overlap_bounds(
        left,
        right,
        vstd::math::min(left.len() as int, right.len() as int),
    );
}

/// Joining keeps both texts: the result starts with the left one and ends with the right one.
pub proof fn joining_keeps_both(left: Seq<char>, right: Seq<char>)
    ensures
        left.is_prefix_of(joined(left, right)),
        right.is_suffix_of(joined(left, right)),
{
    if left.len() > 0 {
        overlap_is_the_longest(left, right);
        let n = overlap(left, right);
        let whole = joined(left, right);
        assert(whole.take(left.len() as int) =~= left);
        assert(right =~= right.take(n) + right.skip(n));
        assert(whole.skip(whole.len() - right.len()) =~= left.skip(left.len() - n) + right.skip(n));
    }
}

/// Merging loses no segment: each one stands in the merged text in one piece.
pub proof fn every_segment_is_kept(segments: Seq<Seq<char>>, i: int)
    requires
        0 <= i < segments.len(),
    ensures
        occurs_in(segments[i], merged(segments)),
    decreases segments.len(),
{
    let before = merged(segments.drop_last());
    let whole = merged(segments);
    let part = segments[i];
    joining_keeps_both(before, segments.last());
    if i == segments.len() - 1 {
        let at = whole.len() - part.len();
        assert(whole.subrange(at, at + part.len()) =~= part);
    } else {
        every_segment_is_kept(segments.drop_last(), i);
        let at = choose|at: int|
            0 <= at <= before.len() - part.len() && #[trigger] before.subrange(at, at + part.len())
                == part;
        assert(whole.subrange(at, at + part.len()) =~= before.subrange(at, at + part.len()));
    }
}

/// A later segment only ever adds to the end of what is merged already.
pub proof fn merging_only_appends(segments: Seq<Seq<char>>, segment: Seq<char>)
    ensures
        merged(segments).is_prefix_of(merged(segments.push(segment))),
{
    assert(segments.push(segment).drop_last() =~= segments);
    joining_keeps_both(merged(segments), segment);
}

/// A segment of at least two characters that the merged text ends with already adds nothing.
pub proof fn repeated_segment_adds_nothing(segments: Seq<Seq<char>>, segment: Seq<char>)
    requires
        segment.len() >= 2,
        segment.is_suffix_of(merged(segments)),
    ensures
        merged(segments.push(segment)) == merged(segments),
{
    let before = merged(segments);
    let n = segment.len() as int;
    assert(segments.push(segment).drop_last() =~= segments);
    assert(before.skip(before.len() - n) =~= segment.take(n));
    assert(overlap(before, segment) == n);
    assert(joined(before, segment) =~= before);
}

/// A final text is never displaced by an interim one, and an interim text counts as long as
/// no final one stands under its id.
pub proof fn final_text_wins(
    finals: Map<i64, Seq<char>>,
    partials: Map<i64, Seq<char>>,
    id: i64,
)
    ensures
        combined(finals, partials).contains_key(id) <==> finals.contains_key(id)
            || partials.contains_key(id),
        finals.contains_key(id) ==> combined(finals, partials)[id] == finals[id],
        !finals.contains_key(id) && partials.contains_key(id) ==> combined(finals, partials)[id]
            == partials[id],
{
}

/// Joining writes what two texts have in common once: where the left text is `a` and then `b`,
/// the right one `b` and then `c`, and no more than `b` is repeated, the whole is `a`, `b`, `c`.
/// With an empty `b` nothing is repeated; a single repeated character does not count.
pub proof fn common_text_is_written_once(a: Seq<char>, b: Seq<char>, c: Seq<char>)
    requires
        (a + b).len() > 0,
        b.len() != 1,
        forall|n: int|
            2 <= n && b.len() < n <= (a + b).len() && n <= (b + c).len()
                ==> #[trigger] (b + c).take(n) != (a + b).skip((a + b).len() - n),
    ensures
        joined(a + b, b + c) == a + b + c,
{
    let left = a + b;
    let right = b + c;
    let n = overlap(left, right);
    overlap_is_the_longest(left, right);
    assert(left.skip(left.len() - b.len()) =~= right.take(b.len() as int));
    assert(overlaps_by(left, right, b.len() as int));
    if n > b.len() {
        assert(right.take(n) == left.skip(left.len() - n));
    }
    assert(n == b.len());
    assert(joined(left, right) =~= a + b + c);
}

/// Joining with nothing on the left is the text on the right.
pub proof fn joining_to_nothing_is_the_text(right: Seq<char>)
    ensures
        joined(Seq::empty(), right) == right,
{
}

/// How long a joined text is: as long as both texts together, less the most characters, two at
/// least, by which the left one ends as the right one starts.
pub proof fn joined_length(left: Seq<char>, right: Seq<char>, n: int)
    requires
        left.len() > 0,
        0 <= n <= left.len(),
        n <= right.len(),
        n != 1,
        left.skip(left.len() - n) == right.take(n),
        forall|m: int|
            2 <= m && n < m <= left.len() && m <= right.len() ==> #[trigger] right.take(m)
                != left.skip(left.len() - m),
    ensures
        joined(left, right).len() == left.len() + right.len() - n,
        joined(left, right).take(left.len() as int) == left,
        joined(left, right).skip(left.len() - n) == right,
{
    let a = left.take(left.len() - n);
    let b = right.take(n);
    let c = right.skip(n);
    assert(a + b =~= left);
    assert(b + c =~= right);
    common_text_is_written_once(a, b, c);
    assert(joined(left, right).take(left.len() as int) =~= left);
    assert(joined(left, right).skip(left.len() - n) =~= right);
}

/// No segments make an empty text, and a single one is the text.
pub proof fn one_segment_is_the_text(segment: Seq<char>)
    ensures
        merged(Seq::empty()) == Seq::<char>::empty(),
        merged(seq![segment]) == segment,
{
    assert(seq![segment].drop_last() =~= Seq::<Seq<char>>::empty());
    assert(merged(seq![segment].drop_last()) == Seq::<char>::empty());
}

/// What the next segment adds, however many came before and however long the text is: where the
/// text so far is `a` and then `b`, the next segment is `b` and then `c`, and no more than `b` is
/// repeated, the merged text is `a`, `b`, `c`.
pub proof fn next_segment_adds_what_is_new(
    segments: Seq<Seq<char>>,
    a: Seq<char>,
    b: Seq<char>,
    c: Seq<char>,
)
    requires
        merged(segments) == a + b,
        (a + b).len() > 0,
        b.len() != 1,
        forall|n: int|
            2 <= n && b.len() < n <= (a + b).len() && n <= (b + c).len()
                ==> #[trigger] (b + c).take(n) != (a + b).skip((a + b).len() - n),
    ensures
        merged(segments.push(b + c)) == a + b + c,
{
    assert(segments.push(b + c).drop_last() =~= segments);
    common_text_is_written_once(a, b, c);
}

/// As long as there is no text, the next segment is the text.
pub proof fn first_text_is_taken_whole(segments: Seq<Seq<char>>, segment: Seq<char>)
    requires
        merged(segments).len() == 0,
    ensures
        merged(segments.push(segment)) == segment,
{
    assert(segments.push(segment).drop_last() =~= segments);
}

/// Two segments that repeat a text at their seam give the text with that part once.
pub proof fn two_segments_share_their_seam(a: Seq<char>, b: Seq<char>, c: Seq<char>)
    requires
        (a + b).len() > 0,
        b.len() != 1,
        forall|n: int|
            2 <= n && b.len() < n <= (a + b).len() && n <= (b + c).len()
                ==> #[trigger] (b + c).take(n) != (a + b).skip((a + b).len() - n),
    ensures
        merged(seq![a + b, b + c]) == a + b + c,
{
    one_segment_is_the_text(a + b);
    assert(seq![a + b, b + c] =~= seq![a + b].push(b + c));
    next_segment_adds_what_is_new(seq![a + b], a, b, c);
}

/// The view of a list of strings shows the text of each, in order.
pub proof fn view_shows_every_string(strings: Seq<String>)
    ensures
        string_views(strings).len() == strings.len(),
        forall|i: int| 0 <= i < strings.len() ==> #[trigger] string_views(strings)[i]
            == strings[i]@,
{
}

} // verus!
