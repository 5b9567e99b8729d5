//! Building decks from tabular card records: one record per card, with the
//! fields faction, name, power, kind and row.
use vstd::prelude::*;
use vstd::string::StringExecFns;
use crate::card::{Card, CardId, CardKind, Row};
use crate::text::{names, names_word, parse_small, parse_u8, same_text, trim, trimmed};

verus! {

#[verifier::external_type_specification]
#[verifier::external_body]
pub struct ExCsvError(csv::Error);

/// The records of CSV text after its header row, each as its fields, or
/// `None` where `csv::Reader`, built with `flexible(true)` and otherwise
/// default settings, fails on the text: a record after the header whose
/// fields are not UTF-8 fails the whole text. Records may be shorter or
/// longer than the header.
pub uninterp spec fn csv_records(data: Seq<u8>) -> Option<Seq<Seq<Seq<char>>>>;

/// The text of each field of each record.
pub open spec fn records_view(v: Seq<Vec<String>>) -> Seq<Seq<Seq<char>>> {
    v.map_values(|r: Vec<String>| r@.map_values(|f: String| f@))
}

/// Relies on `csv::ReaderBuilder` with `flexible(true)` and otherwise
/// default settings, and on `Reader::records`: the records after the header
/// row, or the first error met. The result depends on the bytes alone.
#[verifier::external_body]
fn read_csv(data: &[u8]) -> (r: Result<Vec<Vec<String>>, csv::Error>)
    ensures
        match r {
            Ok(v) => csv_records(data@) == Some(records_view(v@)),
            Err(_) => csv_records(data@) is None,
        },
{
    csv::ReaderBuilder::new()
        .flexible(true)
        .from_reader(data)
        .records()
        .map(|rec| rec.map(|rec| rec.iter().map(|f| f.to_string()).collect()))
        .collect()
}

/// Why a deck could not be built.
#[derive(Clone, Copy, Debug, PartialEq, Eq, Structural)]
pub enum DeckError {
    /// The CSV reader fails on the source, as on a record whose fields are
    /// not UTF-8. A row with missing or extra fields is no error: missing
    /// fields take their defaults.
    Malformed,
    /// The deck holds more cards than identifiers are left after the
    /// starting one.
    IdsExhausted,
}

/// Field `k` of a record, empty where the record is shorter.
pub open spec fn field(rec: Seq<Seq<char>>, k: int) -> Seq<char> {
    if 0 <= k < rec.len() {
        rec[k]
    } else {
        Seq::empty()
    }
}

/// A power field: its number, or 0 where it is not one from 0 to 255.
pub open spec fn power_of(s: Seq<char>) -> u8 {
    match parse_u8(trim(s)) {
        Some(v) => v,
        None => 0,
    }
}

/// A kind field: `spy` in any ASCII case is a spy, anything else a unit.
pub open spec fn kind_of(s: Seq<char>) -> CardKind {
    if names(trim(s), seq!['s', 'p', 'y']) {
        CardKind::Spy
    } else {
        CardKind::Unit
    }
}

/// A row field: `ranged` or `siege` in any ASCII case, anything else melee.
pub open spec fn row_of(s: Seq<char>) -> Row {
    if names(trim(s), seq!['r', 'a', 'n', 'g', 'e', 'd']) {
        Row::Ranged
    } else if names(trim(s), seq!['s', 'i', 'e', 'g', 'e']) {
        Row::Siege
    } else {
        Row::Melee
    }
}

/// Whether a record belongs to `faction`.
pub open spec fn in_faction(rec: Seq<Seq<char>>, faction: Seq<char>) -> bool {
    trim(field(rec, 0)) == faction
}

/// `c` is the card that record `rec` describes, with identifier `id`.
pub open spec fn describes(c: Card, rec: Seq<Seq<char>>, id: int) -> bool {
    &&& c.id == id
    &&& c.name@ == trim(field(rec, 1))
    &&& c.power == power_of(field(rec, 2))
    &&& c.kind == kind_of(field(rec, 3))
    &&& c.row == row_of(field(rec, 4))
}

/// The records of `faction`, in order.
pub open spec fn selected(recs: Seq<Seq<Seq<char>>>, faction: Seq<char>) -> Seq<Seq<Seq<char>>>
    decreases recs.len(),
{
    if recs.len() == 0 {
        Seq::empty()
    } else if in_faction(recs.last(), faction) {
        selected(recs.drop_last(), faction).push(recs.last())
    } else {
        selected(recs.drop_last(), faction)
    }
}

/// `deck` holds one card per record of `faction`, in order, numbered from
/// `start`.
pub open spec fn deck_of(deck: Seq<Card>, recs: Seq<Seq<Seq<char>>>, faction: Seq<char>, start: int) -> bool {
    let sel = selected(recs, faction);
    deck.len() == sel.len() && forall|k: int| 0 <= k < sel.len() ==> describes(#[trigger] deck[k], sel[k], start + k)
}

/// Text of field `k` of a record, empty where the record is shorter.
fn field_text(rec: &Vec<String>, k: usize) -> (r: &str)
    ensures
        r@ == field(rec@.map_values(|f: String| f@), k as int),
{
    if k < rec.len() {
        rec[k].as_str()
    } else {
        proof {
            reveal_strlit("");
        }
        ""
    }
}

/// The card a record describes, with identifier `id`.
pub fn card_from_record(rec: &Vec<String>, id: CardId) -> (c: Card)
    ensures
        describes(c, rec@.map_values(|f: String| f@), id as int),
{
    let name = String::from_str(trimmed(field_text(rec, 1)));
    let power = match parse_small(trimmed(field_text(rec, 2))) {
        Some(v) => v,
        None => 0,
    };
    proof {
        reveal_strlit("spy");
        reveal_strlit("ranged");
        reveal_strlit("siege");
    }
    let kind_text = trimmed(field_text(rec, 3));
    let kind = if names_word(kind_text, "spy") {
        CardKind::Spy
    } else {
        CardKind::Unit
    };
    let row_text = trimmed(field_text(rec, 4));
    let row = if names_word(row_text, "ranged") {
        Row::Ranged
    } else if names_word(row_text, "siege") {
        Row::Siege
    } else {
        Row::Melee
    };
    assert("spy"@ =~= seq!['s', 'p', 'y']);
    assert("ranged"@ =~= seq!['r', 'a', 'n', 'g', 'e', 'd']);
    assert("siege"@ =~= seq!['s', 'i', 'e', 'g', 'e']);
    Card { id, name, power, kind, row }
}

/// Whether a record belongs to `faction`.
pub fn record_in_faction(rec: &Vec<String>, faction: &str) -> (r: bool)
    ensures
        r == in_faction(rec@.map_values(|f: String| f@), faction@),
{
    same_text(trimmed(field_text(rec, 0)), faction)
}

proof fn lemma_selected_prefix(recs: Seq<Seq<Seq<char>>>, faction: Seq<char>, k: int)
    requires
        0 <= k <= recs.len(),
    ensures
        selected(recs.take(k), faction).len() <= selected(recs, faction).len(),
    decreases recs.len() - k,
{
    if k < recs.len() {
        lemma_selected_prefix(recs, faction, k + 1);
        assert(recs.take(k + 1).drop_last() =~= recs.take(k));
    } else {
        assert(recs.take(k) =~= recs);
    }
}

proof fn lemma_view_prefix(records: Seq<Vec<String>>, i: int)
    requires
        0 <= i < records.len(),
    ensures
        records_view(records.take(i + 1)).drop_last() == records_view(records.take(i)),
        records_view(records.take(i + 1)).last() == records[i]@.map_values(|f: String| f@),
        records_view(records.take(i + 1)).len() == i + 1,
{
    assert(records_view(records.take(i + 1)).drop_last() =~= records_view(records.take(i)));
}

/// Number of records of `faction`.
fn count_selected(records: &Vec<Vec<String>>, faction: &str) -> (r: usize)
    ensures
        r == selected(records_view(records@), faction@).len(),
{
    let mut n: usize = 0;
    let mut i: usize = 0;
    while i < records.len()
        invariant
            i <= records@.len(),
            n == selected(records_view(records@.take(i as int)), faction@).len(),
            n <= i,
        decreases records@.len() - i,
    {
        proof {
            lemma_view_prefix(records@, i as int);
        }
        if record_in_faction(&records[i], faction) {
            n = n + 1;
        }
        i = i + 1;
    }
    assert(records@.take(i as int) =~= records@);
    n
}

/// One card per record of `faction`, in order, with identifiers counted up
/// from `starting_id`.
pub fn deck_from_records(records: &Vec<Vec<String>>, faction: &str, starting_id: CardId) -> (r: Vec<Card>)
    requires
        starting_id + selected(records_view(records@), faction@).len() <= u32::MAX + 1,
    ensures
        deck_of(r@, records_view(records@), faction@, starting_id as int),
{
    let ghost all = records_view(records@);
    let mut cards: Vec<Card> = Vec::new();
    let mut next_id: u64 = starting_id as u64;
    let mut i: usize = 0;
    while i < records.len()
        invariant
            i <= records@.len(),
            all == records_view(records@),
            starting_id + selected(all, faction@).len() <= u32::MAX + 1,
            next_id == starting_id + cards@.len(),
            deck_of(cards@, records_view(records@.take(i as int)), faction@, starting_id as int),
        decreases records@.len() - i,
    {
        proof {
            lemma_view_prefix(records@, i as int);
            lemma_selected_prefix(all, faction@, i + 1);
            assert(all.take(i + 1) =~= records_view(records@.take(i + 1)));
        }
        if record_in_faction(&records[i], faction) {
            let card = card_from_record(&records[i], next_id as u32);
            cards.push(card);
            next_id = next_id + 1;
        }
        i = i + 1;
    }
    assert(records@.take(i as int) =~= records@);
    cards
}

/// What loading a deck of `faction` from CSV text `data`, numbered from
/// `start`, yields: `Malformed` where the CSV reader fails on the text,
/// `IdsExhausted` where the faction has more cards than identifiers are left
/// from `start` on, and its cards otherwise.
pub open spec fn loaded(data: Seq<u8>, faction: Seq<char>, start: CardId, r: Result<Vec<Card>, DeckError>) -> bool {
    match csv_records(data) {
        None => r == Err::<Vec<Card>, DeckError>(DeckError::Malformed),
        Some(recs) => if start + selected(recs, faction).len() > u32::MAX + 1 {
            r == Err::<Vec<Card>, DeckError>(DeckError::IdsExhausted)
        } else {
            r is Ok && deck_of(r->Ok_0@, recs, faction, start as int)
        },
    }
}

/// Reads the cards of `faction` from CSV text whose rows hold faction, name,
/// power, kind and row; identifiers count up from `starting_id`.
pub fn load_deck_from_csv(data: &[u8], faction: &str, starting_id: CardId) -> (r: Result<Vec<Card>, DeckError>)
    ensures
        loaded(data@, faction@, starting_id, r),
{
    match read_csv(data) {
        Err(_) => Err(DeckError::Malformed),
        Ok(records) => {
            let n = count_selected(&records, faction);
            if n as u64 > u32::MAX as u64 + 1 - starting_id as u64 {
                Err(DeckError::IdsExhausted)
            } else {
                Ok(deck_from_records(&records, faction, starting_id))
            }
        },
    }
}

/// The Northern Realms deck from CSV text, identifiers from 0.
pub fn northern_realms_deck(data: &[u8]) -> (r: Result<Vec<Card>, DeckError>)
    ensures
        loaded(data@, "Northern Realms"@, 0, r),
{
    load_deck_from_csv(data, "Northern Realms", 0)
}

/// The Nilfgaard deck from CSV text, identifiers from 1000.
pub fn nilfgaard_deck(data: &[u8]) -> (r: Result<Vec<Card>, DeckError>)
    ensures
        loaded(data@, "Nilfgaard"@, 1000, r),
{
    load_deck_from_csv(data, "Nilfgaard", 1000)
}

} // verus!
