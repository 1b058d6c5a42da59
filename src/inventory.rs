use vstd::prelude::*;

verus! {

/// One lexical item known to the account.
///
/// `strength` is the mastery score in millionths: 0 is unknown, 1_000_000 is
/// mastered. It may be absent, which is not the same as 0.
#[derive(Debug)]
pub struct VocabWord {
    pub strength_bars: Option<i32>,
    pub infinitive: Option<String>,
    pub normalized_string: Option<String>,
    pub pos: Option<String>,
    pub last_practiced_ms: Option<i64>,
    pub skill: Option<String>,
    pub related_lexemes: Option<Vec<String>>,
    pub last_practiced: Option<String>,
    pub strength: Option<u32>,
    pub skill_url_title: Option<String>,
    pub gender: Option<String>,
    pub id: Option<String>,
    pub lexeme_id: Option<String>,
    pub word_string: Option<String>,
    pub translation: Option<Vec<String>>,
}

/// An entry that can be sampled: it has a strength and a non-empty surface form.
pub open spec fn is_rated(w: VocabWord) -> bool {
    &&& w.strength is Some
    &&& w.word_string is Some
    &&& w.word_string->0@.len() > 0
}

/// The positions of the rated entries of `inv`, in inventory order.
pub open spec fn rated_positions(inv: Seq<VocabWord>) -> Seq<usize>
    decreases inv.len(),
{
    if inv.len() == 0 {
        Seq::empty()
    } else {
        let p = rated_positions(inv.drop_last());
        if is_rated(inv.last()) {
            p.push((inv.len() - 1) as usize)
        } else {
            p
        }
    }
}

/// The strengths of the rated entries, in inventory order.
pub open spec fn rated_strengths(inv: Seq<VocabWord>) -> Seq<u32> {
    rated_positions(inv).map_values(|p: usize| inv[p as int].strength->0)
}

/// Rated positions are in bounds, name rated entries, and ascend.
pub proof fn lemma_rated_positions_valid(inv: Seq<VocabWord>)
    requires
        inv.len() <= usize::MAX,
    ensures
        rated_positions(inv).len() <= inv.len(),
        forall|k: int|
            0 <= k < rated_positions(inv).len() ==> {
                &&& rated_positions(inv)[k] < inv.len()
                &&& is_rated(#[trigger] inv[rated_positions(inv)[k] as int])
            },
        forall|a: int, b: int|
            0 <= a < b < rated_positions(inv).len() ==> #[trigger] rated_positions(inv)[a]
                < #[trigger] rated_positions(inv)[b],
    decreases inv.len(),
{
    if inv.len() > 0 {
        let pre = inv.drop_last();
        let p = rated_positions(pre);
        lemma_rated_positions_valid(pre);
        assert forall|k: int| 0 <= k < p.len() implies pre[p[k] as int] == inv[p[k] as int] by {}
        if is_rated(inv.last()) {
            let q = p.push((inv.len() - 1) as usize);
            assert(rated_positions(inv) == q);
            assert(q[p.len() as int] == inv.len() - 1);
        } else {
            assert(rated_positions(inv) == p);
        }
    }
}

/// Copies a list of strings.
pub fn copy_strings(v: &Vec<String>) -> (r: Vec<String>)
    ensures
        r@ == v@,
{
    let mut r: Vec<String> = Vec::new();
    let mut i: usize = 0;
    while i < v.len()
        invariant
            i <= v@.len(),
            r@ == v@.take(i as int),
        decreases v@.len() - i,
    {
        r.push(v[i].clone());
        i = i + 1;
        assert(r@ =~= v@.take(i as int));
    }
    assert(v@.take(v@.len() as int) =~= v@);
    r
}

/// Metadata on the account's languages; no field of it is read.
#[derive(Debug)]
pub struct LanguageInformation {}

/// The inventory service's answer.
#[derive(Debug)]
pub struct VocabResponse {
    pub language_string: String,
    pub learning_language: Option<String>,
    pub from_language: Option<String>,
    pub language_information: Option<LanguageInformation>,
    pub vocab_overview: Option<Vec<VocabWord>>,
}

/// Why no inventory was fetched.
#[derive(Debug, PartialEq, Eq, Structural)]
pub enum FetchError {
    /// The request did not go through, or the status was not a success.
    Network,
    /// The body is not an inventory document.
    Decode,
    /// The document carries no inventory field (as opposed to an empty one).
    Empty,
}

/// The inventory a response carries; an absent field is an error, unlike an
/// empty list.
pub fn inventory_of(response: VocabResponse) -> (r: Result<Vec<VocabWord>, FetchError>)
    ensures
        match response.vocab_overview {
            Some(v) => r == Ok::<Vec<VocabWord>, FetchError>(v),
            None => r == Err::<Vec<VocabWord>, FetchError>(FetchError::Empty),
        },
{
    match response.vocab_overview {
        Some(v) => Ok(v),
        None => Err(FetchError::Empty),
    }
}

} // verus!
