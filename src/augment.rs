use std::collections::BTreeMap;
use vstd::prelude::*;
use crate::inventory::{copy_strings, VocabWord};

verus! {

#[verifier::external_type_specification]
#[verifier::external_body]
pub struct ExJsonError(serde_json::Error);

/// Why augmentation failed; the inventory is then left as it was.
#[derive(Debug, PartialEq, Eq, Structural)]
pub enum AugmentError {
    /// The lookup request did not go through.
    Network,
    /// The lookup response was not a JSON object of optional string lists.
    Decode,
}

/// One row of a translation lookup: a word and its translations, if the
/// service has any.
pub type Hint = (String, Option<Vec<String>>);

/// A lookup row as plain values.
pub type Row = (Seq<char>, Option<Seq<Seq<char>>>);

/// A list of strings as plain values.
pub open spec fn strings_view(ws: Seq<String>) -> Seq<Seq<char>> {
    ws.map_values(|s: String| s@)
}

/// The rows of a lookup as plain values.
pub open spec fn hints_view(hints: Seq<Hint>) -> Seq<Row> {
    hints.map_values(
        |h: Hint|
            (
                h.0@,
                match h.1 {
                    Some(t) => Some(strings_view(t@)),
                    None => None,
                },
            ),
    )
}

/// The translations that `rows` give for `word`: those of the first row for
/// it, and none when no row names it or its row has none.
pub open spec fn lookup(rows: Seq<Row>, word: Seq<char>) -> Seq<Seq<char>>
    decreases rows.len(),
{
    if rows.len() == 0 {
        Seq::empty()
    } else if rows[0].0 == word {
        match rows[0].1 {
            Some(t) => t,
            None => Seq::empty(),
        }
    } else {
        lookup(rows.drop_first(), word)
    }
}

/// The translations an entry receives from `rows`.
pub open spec fn translation_from(rows: Seq<Row>, w: VocabWord) -> Seq<Seq<char>> {
    match w.word_string {
        Some(s) => lookup(rows, s@),
        None => Seq::empty(),
    }
}

/// `after` is `before` with its translations filled in from `rows`.
pub open spec fn is_augmented(before: VocabWord, after: VocabWord, rows: Seq<Row>) -> bool {
    &&& after == (VocabWord { translation: after.translation, ..before })
    &&& after.translation is Some
    &&& strings_view(after.translation->0@) == translation_from(rows, before)
}

/// `after` is the inventory `before` with every entry's translations filled in.
pub open spec fn augmented(before: Seq<VocabWord>, after: Seq<VocabWord>, rows: Seq<Row>) -> bool {
    &&& after.len() == before.len()
    &&& forall|i: int| 0 <= i < before.len() ==> is_augmented(before[i], #[trigger] after[i], rows)
}

/// The rows that serde_json reads from a lookup response body, in key order,
/// or `None` when it is not a JSON object of optional string lists.
pub uninterp spec fn hint_rows(body: Seq<char>) -> Option<Seq<Row>>;

/// The JSON text that serde_json writes for a list of strings.
pub uninterp spec fn json_string_list(words: Seq<Seq<char>>) -> Seq<char>;

/// Relies on `serde_json::from_str` into a `BTreeMap<String, Option<Vec<String>>>`:
/// the outcome depends on the body alone, and the map's rows come out in key order.
#[verifier::external_body]
fn parse_hint_rows(body: &str) -> (r: Result<Vec<Hint>, serde_json::Error>)
    ensures
        r is Ok <==> hint_rows(body@) is Some,
        r matches Ok(h) ==> hints_view(h@) == hint_rows(body@)->0,
{
    match serde_json::from_str::<BTreeMap<String, Option<Vec<String>>>>(body) {
        Ok(m) => Ok(m.into_iter().collect()),
        Err(e) => Err(e),
    }
}

/// Relies on `serde_json::to_string` on a list of strings: a JSON array whose
/// text depends on the strings alone, each escaped as JSON requires. Its
/// documented failures (a `Serialize` impl that fails, a map with non-string
/// keys) cannot occur for a list of strings.
#[verifier::external_body]
fn write_string_list(words: &Vec<String>) -> (r: Result<String, serde_json::Error>)
    ensures
        r is Ok,
        r matches Ok(s) ==> s@ == json_string_list(words@.map_values(|w: String| w@)),
{
    serde_json::to_string(words)
}

/// The distinct surface forms of `inv`, in order of first appearance.
pub open spec fn batch_words(inv: Seq<VocabWord>) -> Seq<Seq<char>>
    decreases inv.len(),
{
    if inv.len() == 0 {
        Seq::empty()
    } else {
        let prev = batch_words(inv.drop_last());
        match inv.last().word_string {
            Some(w) => if prev.contains(w@) {
                prev
            } else {
                prev.push(w@)
            },
            None => prev,
        }
    }
}

/// The distinct surface forms of the inventory, in order of first
/// appearance (exact, case-sensitive comparison).
pub fn distinct_words(inventory: &Vec<VocabWord>) -> (words: Vec<String>)
    ensures
        words@.map_values(|w: String| w@) == batch_words(inventory@),
{
    let mut words: Vec<String> = Vec::new();
    let mut i: usize = 0;
    while i < inventory.len()
        invariant
            i <= inventory@.len(),
            words@.map_values(|w: String| w@) == batch_words(inventory@.take(i as int)),
        decreases inventory@.len() - i,
    {
        let ghost prev = words@.map_values(|w: String| w@);
        let ghost next = inventory@.take(i + 1);
        assert(next.drop_last() =~= inventory@.take(i as int));
        assert(next.last() == inventory@[i as int]);
        match &inventory[i].word_string {
            Some(w) => {
                let mut k: usize = 0;
                let mut seen = false;
                while k < words.len() && !seen
                    invariant
                        k <= words@.len(),
                        prev == words@.map_values(|w: String| w@),
                        seen ==> prev.contains(w@),
                        !seen ==> forall|a: int| 0 <= a < k ==> prev[a] != w@,
                    decreases words@.len() - k,
                {
                    if words[k] == *w {
                        seen = true;
                        assert(prev[k as int] == w@);
                    }
                    k = k + 1;
                }
                if !seen {
                    words.push(w.clone());
                    assert(words@.map_values(|w: String| w@) =~= prev.push(w@));
                }
            },
            None => {},
        }
        i = i + 1;
    }
    assert(inventory@.take(inventory@.len() as int) =~= inventory@);
    words
}

/// The translations that `hints` give for `word`.
fn translation_for(hints: &Vec<Hint>, word: &String) -> (t: Vec<String>)
    ensures
        strings_view(t@) == lookup(hints_view(hints@), word@),
{
    let ghost rows = hints_view(hints@);
    let mut k: usize = 0;
    assert(rows.skip(0) =~= rows);
    while k < hints.len()
        invariant
            k <= hints@.len(),
            rows == hints_view(hints@),
            lookup(rows, word@) == lookup(rows.skip(k as int), word@),
        decreases hints@.len() - k,
    {
        let ghost rest = rows.skip(k as int);
        assert(rest[0] == rows[k as int]);
        assert(rest.drop_first() =~= rows.skip(k + 1));
        if hints[k].0 == *word {
            return match &hints[k].1 {
                Some(t) => copy_strings(t),
                None => Vec::new(),
            };
        }
        k = k + 1;
    }
    let t: Vec<String> = Vec::new();
    assert(strings_view(t@) =~= Seq::empty());
    t
}

/// Fills in every entry's translations from `hints`: the row for its surface
/// form, and an empty list when there is none.
pub fn merge_translations(inventory: &mut Vec<VocabWord>, hints: &Vec<Hint>)
    ensures
        augmented(old(inventory)@, final(inventory)@, hints_view(hints@)),
{
    let ghost start = inventory@;
    let mut i: usize = 0;
    while i < inventory.len()
        invariant
            i <= inventory@.len(),
            inventory@.len() == start.len(),
            forall|j: int| 0 <= j < i ==> is_augmented(start[j], #[trigger] inventory@[j], hints_view(hints@)),
            forall|j: int| i <= j < inventory@.len() ==> #[trigger] inventory@[j] == start[j],
        decreases inventory@.len() - i,
    {
        let t = match &inventory[i].word_string {
            Some(w) => translation_for(hints, w),
            None => Vec::new(),
        };
        assert(strings_view(t@) == translation_from(hints_view(hints@), start[i as int]));
        inventory[i].translation = Some(t);
        i = i + 1;
    }
}

/// Reads a lookup response body into rows.
pub fn decode_hints(body: &str) -> (r: Result<Vec<Hint>, AugmentError>)
    ensures
        r is Ok <==> hint_rows(body@) is Some,
        r matches Ok(h) ==> hints_view(h@) == hint_rows(body@)->0,
        r is Err ==> r == Err::<Vec<Hint>, AugmentError>(AugmentError::Decode),
{
    match parse_hint_rows(body) {
        Ok(h) => Ok(h),
        Err(_) => Err(AugmentError::Decode),
    }
}

/// Augments the inventory from a lookup response body. On a body that does
/// not decode, the inventory is left as it was.
pub fn add_translations(inventory: &mut Vec<VocabWord>, body: &str) -> (r: Result<(), AugmentError>)
    ensures
        r is Ok <==> hint_rows(body@) is Some,
        r is Ok ==> augmented(old(inventory)@, final(inventory)@, hint_rows(body@)->0),
        r is Err ==> r == Err::<(), AugmentError>(AugmentError::Decode) && final(inventory)@ == old(inventory)@,
{
    match decode_hints(body) {
        Ok(hints) => {
            merge_translations(inventory, &hints);
            Ok(())
        },
        Err(e) => Err(e),
    }
}

/// The lookup parameter for the inventory: its distinct surface forms as a
/// JSON list of strings.
pub fn batch_query(inventory: &Vec<VocabWord>) -> (r: String)
    ensures
        r@ == json_string_list(batch_words(inventory@)),
{
    let words = distinct_words(inventory);
    match write_string_list(&words) {
        Ok(s) => s,
        Err(_) => String::new(),
    }
}

/// Some entry of `inv` has the surface form `w`.
pub open spec fn is_word_of(inv: Seq<VocabWord>, w: Seq<char>) -> bool {
    exists|j: int| 0 <= j < inv.len() && (#[trigger] inv[j]).word_string is Some && inv[j].word_string->0@ == w
}

/// The lookup batch names each surface form of the inventory exactly once,
/// and nothing else.
pub proof fn lemma_batch_words_distinct(inv: Seq<VocabWord>)
    ensures
        forall|a: int, b: int|
            0 <= a < b < batch_words(inv).len() ==> #[trigger] batch_words(inv)[a] != #[trigger] batch_words(inv)[b],
        forall|j: int|
            0 <= j < inv.len() && (#[trigger] inv[j]).word_string is Some ==> batch_words(inv).contains(
                inv[j].word_string->0@,
            ),
        forall|a: int| 0 <= a < batch_words(inv).len() ==> is_word_of(inv, #[trigger] batch_words(inv)[a]),
    decreases inv.len(),
{
    if inv.len() > 0 {
        let pre = inv.drop_last();
        let prev = batch_words(pre);
        lemma_batch_words_distinct(pre);
        let cur = batch_words(inv);
        assert forall|j: int| 0 <= j < pre.len() implies #[trigger] pre[j] == inv[j] by {}
        match inv.last().word_string {
            Some(w) => {
                if !prev.contains(w@) {
                    assert(cur == prev.push(w@));
                    assert(cur[prev.len() as int] == w@);
                    assert forall|j: int|
                        0 <= j < inv.len() && (#[trigger] inv[j]).word_string is Some implies cur.contains(
                            inv[j].word_string->0@,
                        ) by {
                        if j < pre.len() {
                            assert(pre[j] == inv[j]);
                            let a = choose|a: int| 0 <= a < prev.len() && prev[a] == inv[j].word_string->0@;
                            assert(cur[a] == prev[a]);
                        }
                    }
                    assert forall|a: int| 0 <= a < cur.len() implies is_word_of(inv, #[trigger] cur[a]) by {
                        if a < prev.len() {
                            assert(cur[a] == prev[a]);
                            assert(is_word_of(pre, prev[a]));
                            let j = choose|j: int| 0 <= j < pre.len() && (#[trigger] pre[j]).word_string is Some && pre[j].word_string->0@ == prev[a];
                            assert(inv[j] == pre[j]);
                        } else {
                            assert(inv[inv.len() - 1] == inv.last());
                        }
                    }
                } else {
                    assert(cur == prev);
                    assert forall|j: int|
                        0 <= j < inv.len() && (#[trigger] inv[j]).word_string is Some implies cur.contains(
                            inv[j].word_string->0@,
                        ) by {
                        if j < pre.len() {
                            assert(pre[j] == inv[j]);
                        } else {
                            assert(inv[j] == inv.last());
                        }
                    }
                    assert forall|a: int| 0 <= a < cur.len() implies is_word_of(inv, #[trigger] cur[a]) by {
                        assert(is_word_of(pre, prev[a]));
                            let j = choose|j: int| 0 <= j < pre.len() && (#[trigger] pre[j]).word_string is Some && pre[j].word_string->0@ == prev[a];
                        assert(inv[j] == pre[j]);
                    }
                }
            },
            None => {
                assert(cur == prev);
                assert forall|j: int|
                    0 <= j < inv.len() && (#[trigger] inv[j]).word_string is Some implies cur.contains(
                        inv[j].word_string->0@,
                    ) by {
                    if j < pre.len() {
                        assert(pre[j] == inv[j]);
                    } else {
                        assert(inv[j] == inv.last());
                    }
                }
                assert forall|a: int| 0 <= a < cur.len() implies is_word_of(inv, #[trigger] cur[a]) by {
                    assert(is_word_of(pre, prev[a]));
                            let j = choose|j: int| 0 <= j < pre.len() && (#[trigger] pre[j]).word_string is Some && pre[j].word_string->0@ == prev[a];
                    assert(inv[j] == pre[j]);
                }
            },
        }
    }
}

/// A word that no row names gets an empty list of translations.
pub proof fn lemma_unlisted_word_gets_nothing(rows: Seq<Row>, word: Seq<char>)
    requires
        forall|k: int| 0 <= k < rows.len() ==> (#[trigger] rows[k]).0 != word,
    ensures
        lookup(rows, word) == Seq::<Seq<char>>::empty(),
    decreases rows.len(),
{
    if rows.len() > 0 {
        let rest = rows.drop_first();
        assert forall|k: int| 0 <= k < rest.len() implies (#[trigger] rest[k]).0 != word by {
            assert(rest[k] == rows[k + 1]);
        }
        lemma_unlisted_word_gets_nothing(rest, word);
    }
}

/// Augmenting one inventory twice with the same rows gives the same
/// translations both times.
pub proof fn lemma_augment_deterministic(inv: Seq<VocabWord>, a: Seq<VocabWord>, b: Seq<VocabWord>, rows: Seq<Row>)
    requires
        augmented(inv, a, rows),
        augmented(inv, b, rows),
    ensures
        a.len() == b.len(),
        forall|i: int| 0 <= i < a.len() ==> strings_view((#[trigger] a[i]).translation->0@) == strings_view(b[i].translation->0@),
{
    assert forall|i: int| 0 <= i < a.len() implies strings_view((#[trigger] a[i]).translation->0@) == strings_view(b[i].translation->0@) by {
        assert(is_augmented(inv[i], a[i], rows));
        assert(is_augmented(inv[i], b[i], rows));
    }
}

/// Augmenting an augmented inventory again with the same rows changes no
/// entry's translations, nor anything else of it.
pub proof fn lemma_augment_idempotent(inv: Seq<VocabWord>, once: Seq<VocabWord>, twice: Seq<VocabWord>, rows: Seq<Row>)
    requires
        augmented(inv, once, rows),
        augmented(once, twice, rows),
    ensures
        twice.len() == once.len(),
        forall|i: int| 0 <= i < once.len() ==> {
            &&& #[trigger] twice[i] == (VocabWord { translation: twice[i].translation, ..once[i] })
            &&& strings_view(twice[i].translation->0@) == strings_view(once[i].translation->0@)
        },
{
    assert forall|i: int| 0 <= i < once.len() implies {
        &&& #[trigger] twice[i] == (VocabWord { translation: twice[i].translation, ..once[i] })
        &&& strings_view(twice[i].translation->0@) == strings_view(once[i].translation->0@)
    } by {
        assert(is_augmented(inv[i], once[i], rows));
        assert(is_augmented(once[i], twice[i], rows));
    }
}

} // verus!
