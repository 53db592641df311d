//! Reading the recognised words out of a result of the service.
//!
//! A result looks like `{"seg_id": 0, "cn": {"st": {"type": "1", "rt": [..]}}}`. Each item of
//! `rt` is a sentence with word groups under `ws`, each group has words under `cw`, and the text
//! of a word stands under `w`.

use crate::json::{Json, JsonTree};
use crate::text;
use vstd::prelude::*;

verus! {

/// The text of one word.
pub open spec fn word_text(word: JsonTree) -> Seq<char> {
    match word.text_at("w"@) {
        Some(text) => text,
        None => Seq::empty(),
    }
}

/// The texts of the words of one group, one after the other.
pub open spec fn group_text(group: JsonTree) -> Seq<char> {
    match group.items_at("cw"@) {
        Some(words) => Seq::new(words.len(), |i: int| word_text(words[i])).flatten(),
        None => Seq::empty(),
    }
}

/// The texts of the word groups of one sentence, one after the other.
pub open spec fn sentence_text(sentence: JsonTree) -> Seq<char> {
    match sentence.items_at("ws"@) {
        Some(groups) => Seq::new(groups.len(), |i: int| group_text(groups[i])).flatten(),
        None => Seq::empty(),
    }
}

/// What stands under `cn.st` in a result.
pub open spec fn statement(data: JsonTree) -> Option<JsonTree> {
    match data.get("cn"@) {
        Some(cn) => cn.get("st"@),
        None => None,
    }
}

/// The texts of all sentences of a result, one after the other.
pub open spec fn result_text(data: JsonTree) -> Seq<char> {
    match statement(data) {
        Some(st) => match st.items_at("rt"@) {
            Some(sentences) => Seq::new(
                sentences.len(),
                |i: int| sentence_text(sentences[i]),
            ).flatten(),
            None => Seq::empty(),
        },
        None => Seq::empty(),
    }
}

/// Whether a result is final: its `cn.st.type` is the string `0`.
pub open spec fn result_is_final(data: JsonTree) -> bool {
    match statement(data) {
        Some(st) => st.text_at("type"@) == Some("0"@),
        None => false,
    }
}

/// The number of the segment that a result is about; zero where it names none.
pub open spec fn result_segment(data: JsonTree) -> i64 {
    match data.get("seg_id"@) {
        Some(id) => match id.integer() {
            Some(id) => id,
            None => 0,
        },
        None => 0,
    }
}

fn append_group(text: &mut String, group: &Json)
    ensures
        final(text)@ == old(text)@ + group_text(group@),
{
    let ghost before = text@;
    match group.array_at("cw") {
        Some(words) => {
            let ghost texts = Seq::new(words@.len(), |i: int| word_text(words@[i]@));
            assert(Seq::new(words@.len(), |i: int| word_text(crate::json::tree_views(words@)[i]))
                =~= texts);
            assert(before + texts.take(0).flatten() =~= before);
            let count: usize = words.len();
            for i in 0..count
                invariant
                    count == words@.len(),
                    texts == Seq::new(words@.len(), |i: int| word_text(words@[i]@)),
                    text@ == before + texts.take(i as int).flatten(),
            {
                proof {
                    assert(texts.take(i + 1) =~= texts.take(i as int).push(texts[i as int]));
                    texts.take(i as int).lemma_flatten_push(texts[i as int]);
                }
                if let Some(word) = words[i].str_at("w") {
                    text.append(word);
                }
                assert(text@ =~= before + texts.take(i + 1).flatten());
            }
            assert(texts.take(count as int) =~= texts);
        },
        None => {
            assert(before + Seq::empty() =~= before);
        },
    }
}

fn append_sentence(text: &mut String, sentence: &Json)
    ensures
        final(text)@ == old(text)@ + sentence_text(sentence@),
{
    let ghost before = text@;
    match sentence.array_at("ws") {
        Some(groups) => {
            let ghost texts = Seq::new(groups@.len(), |i: int| group_text(groups@[i]@));
            assert(Seq::new(groups@.len(), |i: int| group_text(crate::json::tree_views(groups@)[i]))
                =~= texts);
            assert(before + texts.take(0).flatten() =~= before);
            let count: usize = groups.len();
            for i in 0..count
                invariant
                    count == groups@.len(),
                    texts == Seq::new(groups@.len(), |i: int| group_text(groups@[i]@)),
                    text@ == before + texts.take(i as int).flatten(),
            {
                proof {
                    assert(texts.take(i + 1) =~= texts.take(i as int).push(texts[i as int]));
                    texts.take(i as int).lemma_flatten_push(texts[i as int]);
                }
                append_group(text, &groups[i]);
                assert(text@ =~= before + texts.take(i + 1).flatten());
            }
            assert(texts.take(count as int) =~= texts);
        },
        None => {
            assert(before + Seq::empty() =~= before);
        },
    }
}

/// Reads the recognised words out of a result. What is missing or of another kind than the
/// service sends counts as no text.
pub fn extract_words(data: &Json) -> (text: String)
    ensures
        text@ == result_text(data@),
{
    let mut text = String::new();
    let st = match data.get("cn") {
        Some(cn) => cn.get("st"),
        None => None,
    };
    let sentences = match st {
        Some(st) => st.array_at("rt"),
        None => None,
    };
    if let Some(sentences) = sentences {
        let ghost texts = Seq::new(sentences@.len(), |i: int| sentence_text(sentences@[i]@));
        assert(Seq::new(
            sentences@.len(),
            |i: int| sentence_text(crate::json::tree_views(sentences@)[i]),
        ) =~= texts);
        let count: usize = sentences.len();
        for i in 0..count
            invariant
                count == sentences@.len(),
                texts == Seq::new(sentences@.len(), |i: int| sentence_text(sentences@[i]@)),
                text@ == texts.take(i as int).flatten(),
        {
            proof {
                assert(texts.take(i + 1) =~= texts.take(i as int).push(texts[i as int]));
                texts.take(i as int).lemma_flatten_push(texts[i as int]);
            }
            append_sentence(&mut text, &sentences[i]);
        }
        assert(texts.take(count as int) =~= texts);
    }
    text
}

/// Whether a result is final.
pub fn is_final(data: &Json) -> (yes: bool)
    ensures
        yes == result_is_final(data@),
{
    let st = match data.get("cn") {
        Some(cn) => cn.get("st"),
        None => None,
    };
    let kind = match st {
        Some(st) => st.str_at("type"),
        None => None,
    };
    match kind {
        Some(kind) => text::same_text(kind, "0"),
        None => false,
    }
}

/// The number of the segment that a result is about.
pub fn segment_id(data: &Json) -> (id: i64)
    ensures
        id == result_segment(data@),
{
    match data.get("seg_id") {
        Some(id) => id.as_i64().unwrap_or(0),
        None => 0,
    }
}

proof fn lemma_flatten_grows<A>(items: Seq<A>, item: A, text: spec_fn(A) -> Seq<char>)
    ensures
        Seq::new(items.push(item).len(), |i: int| text(items.push(item)[i])).flatten() == Seq::new(
            items.len(),
            |i: int| text(items[i]),
        ).flatten() + text(item),
{
    let texts = Seq::new(items.len(), |i: int| text(items[i]));
    texts.lemma_flatten_push(text(item));
    assert(Seq::new(items.push(item).len(), |i: int| text(items.push(item)[i])) =~= texts.push(
        text(item),
    ));
}

/// The text of a word is the string under `w`; without one there is no text.
pub proof fn word_is_its_string(word: JsonTree)
    ensures
        word.get("w"@) matches Some(JsonTree::Str(text)) ==> word_text(word) == text,
        !(word.get("w"@) matches Some(JsonTree::Str(_))) ==> word_text(word).len() == 0,
{
}

/// One more word in a group adds the text of that word at the end, however many there are.
pub proof fn next_word_is_added(
    shorter: JsonTree,
    longer: JsonTree,
    words: Seq<JsonTree>,
    word: JsonTree,
)
    requires
        shorter.get("cw"@) == Some(JsonTree::Array(words)),
        longer.get("cw"@) == Some(JsonTree::Array(words.push(word))),
    ensures
        group_text(longer) == group_text(shorter) + word_text(word),
{
    let text = |word: JsonTree| word_text(word);
    lemma_flatten_grows(words, word, text);
    assert(Seq::new(words.len(), |i: int| word_text(words[i])) =~= Seq::new(
        words.len(),
        |i: int| text(words[i]),
    ));
    assert(Seq::new(words.push(word).len(), |i: int| word_text(words.push(word)[i])) =~= Seq::new(
        words.push(word).len(),
        |i: int| text(words.push(word)[i]),
    ));
}

/// A group without a list of words, or with an empty one, has no text.
pub proof fn group_without_words_is_empty(group: JsonTree)
    requires
        group.get("cw"@) matches Some(JsonTree::Array(words)) ==> words.len() == 0,
    ensures
        group_text(group).len() == 0,
{
}

/// One more group in a sentence adds the text of that group at the end, however many there are.
pub proof fn next_group_is_added(
    shorter: JsonTree,
    longer: JsonTree,
    groups: Seq<JsonTree>,
    group: JsonTree,
)
    requires
        shorter.get("ws"@) == Some(JsonTree::Array(groups)),
        longer.get("ws"@) == Some(JsonTree::Array(groups.push(group))),
    ensures
        sentence_text(longer) == sentence_text(shorter) + group_text(group),
{
    let text = |group: JsonTree| group_text(group);
    lemma_flatten_grows(groups, group, text);
    assert(Seq::new(groups.len(), |i: int| group_text(groups[i])) =~= Seq::new(
        groups.len(),
        |i: int| text(groups[i]),
    ));
    assert(Seq::new(groups.push(group).len(), |i: int| group_text(groups.push(group)[i]))
        =~= Seq::new(groups.push(group).len(), |i: int| text(groups.push(group)[i])));
}

/// A sentence without a list of groups, or with an empty one, has no text.
pub proof fn sentence_without_groups_is_empty(sentence: JsonTree)
    requires
        sentence.get("ws"@) matches Some(JsonTree::Array(groups)) ==> groups.len() == 0,
    ensures
        sentence_text(sentence).len() == 0,
{
}

/// The member under `cn.st` of a result, where there is one.
pub open spec fn has_statement(data: JsonTree, st: JsonTree) -> bool {
    data.get("cn"@) matches Some(cn) && cn.get("st"@) == Some(st)
}

/// One more sentence in a result adds the text of that sentence at the end, however many there
/// are and whatever else the results hold.
pub proof fn next_sentence_is_added(
    shorter: JsonTree,
    longer: JsonTree,
    short_st: JsonTree,
    long_st: JsonTree,
    sentences: Seq<JsonTree>,
    sentence: JsonTree,
)
    requires
        has_statement(shorter, short_st),
        has_statement(longer, long_st),
        short_st.get("rt"@) == Some(JsonTree::Array(sentences)),
        long_st.get("rt"@) == Some(JsonTree::Array(sentences.push(sentence))),
    ensures
        result_text(longer) == result_text(shorter) + sentence_text(sentence),
{
    let text = |sentence: JsonTree| sentence_text(sentence);
    lemma_flatten_grows(sentences, sentence, text);
    assert(Seq::new(sentences.len(), |i: int| sentence_text(sentences[i])) =~= Seq::new(
        sentences.len(),
        |i: int| text(sentences[i]),
    ));
    assert(Seq::new(
        sentences.push(sentence).len(),
        |i: int| sentence_text(sentences.push(sentence)[i]),
    ) =~= Seq::new(sentences.push(sentence).len(), |i: int| text(sentences.push(sentence)[i])));
}

/// A result without a list of sentences under `cn.st.rt`, or with an empty one, has no text.
pub proof fn result_without_sentences_is_empty(data: JsonTree)
    requires
        forall|st: JsonTree|
            #![trigger st.get("rt"@)]
            has_statement(data, st) ==> (st.get("rt"@) matches Some(JsonTree::Array(sentences))
                ==> sentences.len() == 0),
    ensures
        result_text(data).len() == 0,
{
    if let Some(cn) = data.get("cn"@) {
        if let Some(st) = cn.get("st"@) {
            assert(has_statement(data, st));
            assert(st.get("rt"@) == st.get("rt"@));
        }
    }
}

/// Every word of a result stands in its text in one piece, whichever sentence, group and place
/// in the group it has.
pub proof fn every_word_is_in_the_text(
    data: JsonTree,
    st: JsonTree,
    sentences: Seq<JsonTree>,
    i: int,
    groups: Seq<JsonTree>,
    j: int,
    words: Seq<JsonTree>,
    k: int,
    text: Seq<char>,
)
    requires
        has_statement(data, st),
        st.get("rt"@) == Some(JsonTree::Array(sentences)),
        0 <= i < sentences.len(),
        sentences[i].get("ws"@) == Some(JsonTree::Array(groups)),
        0 <= j < groups.len(),
        groups[j].get("cw"@) == Some(JsonTree::Array(words)),
        0 <= k < words.len(),
        words[k].get("w"@) == Some(JsonTree::Str(text)),
    ensures
        crate::segments::occurs_in(text, result_text(data)),
{
    assert(text.subrange(0, 0int + text.len()) =~= text);
    lemma_flatten_holds(Seq::new(words.len(), |i: int| word_text(words[i])), k, text);
    lemma_flatten_holds(Seq::new(groups.len(), |i: int| group_text(groups[i])), j, text);
    lemma_flatten_holds(Seq::new(sentences.len(), |i: int| sentence_text(sentences[i])), i, text);
}

proof fn lemma_flatten_holds(parts: Seq<Seq<char>>, i: int, text: Seq<char>)
    requires
        0 <= i < parts.len(),
        crate::segments::occurs_in(text, parts[i]),
    ensures
        crate::segments::occurs_in(text, parts.flatten()),
    decreases parts.len(),
{
    let whole = parts.flatten();
    let first = parts.first();
    let rest = parts.drop_first();
    let inner = if i == 0 {
        first
    } else {
        lemma_flatten_holds(rest, i - 1, text);
        rest.flatten()
    };
    let shift: int = if i == 0 {
        0
    } else {
        first.len() as int
    };
    let at = choose|at: int|
        0 <= at <= inner.len() - text.len() && #[trigger] inner.subrange(at, at + text.len())
            == text;
    assert(whole == first + rest.flatten());
    assert(whole.subrange(shift + at, shift + at + text.len()) =~= inner.subrange(
        at,
        at + text.len(),
    ));
}

/// A result is final exactly where `cn.st.type` is the string `0`.
pub proof fn final_results_are_of_type_zero(data: JsonTree)
    ensures
        result_is_final(data) <==> exists|st: JsonTree|
            has_statement(data, st) && #[trigger] st.get("type"@) == Some(JsonTree::Str("0"@)),
{
    if result_is_final(data) {
        let st = data.get("cn"@)->Some_0.get("st"@)->Some_0;
        assert(has_statement(data, st) && st.get("type"@) == Some(JsonTree::Str("0"@)));
    }
}

/// A result is about the segment whose number stands under `seg_id`, and about segment zero where
/// no integer stands there.
pub proof fn segment_is_the_number_given(data: JsonTree)
    ensures
        data.get("seg_id"@) matches Some(JsonTree::Number(Some(id))) ==> result_segment(data) == id,
        !(data.get("seg_id"@) matches Some(JsonTree::Number(Some(_)))) ==> result_segment(data)
            == 0,
{
}

} // verus!
