//! Live feeds: which records of a published batch a subscriber is sent.

use crate::text::{join, joined, opt_text, same, texts};
use vstd::prelude::*;

verus! {

/// A record of a batch: the two fields that subscribers filter by, where they
/// are texts, and the record as JSON.
#[derive(Debug)]
pub struct BatchItem {
    pub service: Option<String>,
    pub other: Option<String>,
    pub json: String,
}

pub struct ItemModel {
    pub service: Option<Seq<char>>,
    pub other: Option<Seq<char>>,
    pub json: Seq<char>,
}

impl View for BatchItem {
    type V = ItemModel;

    open spec fn view(&self) -> ItemModel {
        ItemModel { service: opt_text(self.service), other: opt_text(self.other), json: self.json@ }
    }
}

pub open spec fn item_views(v: Seq<BatchItem>) -> Seq<ItemModel> {
    v.map_values(|i: BatchItem| i@)
}

/// Whether a record is what a subscriber wants.
pub open spec fn is_wanted(
    item: ItemModel,
    service: Option<Seq<char>>,
    other: Option<Seq<char>>,
) -> bool {
    (service is Some ==> item.service == service) && (other is Some ==> item.other == other)
}

/// The records that a subscriber wants, as JSON, in order.
pub open spec fn wanted_records(
    items: Seq<ItemModel>,
    service: Option<Seq<char>>,
    other: Option<Seq<char>>,
) -> Seq<Seq<char>>
    decreases items.len(),
{
    if items.len() == 0 {
        Seq::empty()
    } else {
        let before = wanted_records(items.drop_last(), service, other);
        if is_wanted(items.last(), service, other) {
            before.push(items.last().json)
        } else {
            before
        }
    }
}

/// What a subscriber is sent of a batch; nothing where it wants none of it.
pub open spec fn sent_of(
    items: Seq<ItemModel>,
    service: Option<Seq<char>>,
    other: Option<Seq<char>>,
) -> Option<Seq<char>> {
    let records = wanted_records(items, service, other);
    if records.len() == 0 {
        None
    } else {
        Some("["@ + joined(records, ","@) + "]"@)
    }
}

fn field_matches(field: &Option<String>, wanted: &Option<String>) -> (r: bool)
    ensures
        r == (opt_text(*wanted) is Some ==> opt_text(*field) == opt_text(*wanted)),
{
    match wanted {
        None => true,
        Some(w) => match field {
            Some(f) => same(f.as_str(), w.as_str()),
            None => false,
        },
    }
}

/// Pick the records of a batch that a subscriber wants.
pub fn filter_items(items: &Vec<BatchItem>, service: &Option<String>, other: &Option<String>) -> (r:
    Option<String>)
    ensures
        opt_text(r) == sent_of(item_views(items@), opt_text(*service), opt_text(*other)),
{
    let ghost all = item_views(items@);
    let mut out: Vec<String> = Vec::new();
    let mut i: usize = 0;
    assert(all.take(0) =~= Seq::<ItemModel>::empty());
    assert(texts(out@) =~= Seq::<Seq<char>>::empty());
    while i < items.len()
        invariant
            i <= items@.len(),
            all == item_views(items@),
            texts(out@) == wanted_records(all.take(i as int), opt_text(*service), opt_text(*other)),
        decreases items@.len() - i,
    {
        assert(all.take(i as int + 1).drop_last() =~= all.take(i as int));
        assert(all.take(i as int + 1).last() == items@[i as int]@);
        if field_matches(&items[i].service, service) && field_matches(&items[i].other, other) {
            let ghost before = out@;
            let json = items[i].json.clone();
            out.push(json);
            assert(texts(out@) =~= texts(before).push(json@));
        }
        i = i + 1;
    }
    assert(all.take(items@.len() as int) =~= all);
    assert(texts(out@).len() == out@.len());
    if out.len() == 0 {
        return None;
    }
    let mut sent = "[".to_owned();
    sent.append(join(&out, ",").as_str());
    sent.append("]");
    Some(sent)
}

/// What serde_json reads in a batch: for each record two fields, where they are
/// texts, and the record as JSON again. Nothing where the batch is no array.
pub uninterp spec fn json_batch(
    json: Seq<char>,
    first: Seq<char>,
    second: Seq<char>,
) -> Option<Seq<ItemModel>>;

/// Calls `serde_json::from_str` for an array of values, and of each value its
/// `as_str` on two fields and its `to_string`. Claims that the outcome is a
/// function of the batch and the names of the fields.
#[verifier::external_body]
fn serde_json_batch(json: &str, first: &str, second: &str) -> (r: Option<Vec<BatchItem>>)
    ensures
        match r {
            Some(items) => json_batch(json@, first@, second@) == Some(item_views(items@)),
            None => json_batch(json@, first@, second@) is None,
        },
{
    let values: Vec<serde_json::Value> = serde_json::from_str(json).ok()?;
    Some(
        values.iter().map(
            |v| BatchItem {
                service: v[first].as_str().map(str::to_string),
                other: v[second].as_str().map(str::to_string),
                json: v.to_string(),
            },
        ).collect(),
    )
}

/// What a subscriber is sent of a published batch: all of it where it filters
/// by nothing.
pub open spec fn sent_of_batch(
    json: Seq<char>,
    field: Seq<char>,
    service: Option<Seq<char>>,
    other: Option<Seq<char>>,
) -> Option<Seq<char>> {
    if service is None && other is None {
        Some(json)
    } else {
        match json_batch(json, "service"@, field) {
            Some(items) => sent_of(items, service, other),
            None => None,
        }
    }
}

fn filter_batch(
    json: &str,
    field: &str,
    service: &Option<String>,
    other: &Option<String>,
) -> (r: Option<String>)
    ensures
        opt_text(r) == sent_of_batch(json@, field@, opt_text(*service), opt_text(*other)),
{
    if service.is_none() && other.is_none() {
        return Some(json.to_owned());
    }
    match serde_json_batch(json, "service", field) {
        Some(items) => filter_items(&items, service, other),
        None => None,
    }
}

/// The spans of a batch that a subscriber wants, by service and status.
pub fn filter_span_batch(json: &str, service: &Option<String>, status: &Option<String>) -> (r:
    Option<String>)
    ensures
        opt_text(r) == sent_of_batch(json@, "status"@, opt_text(*service), opt_text(*status)),
{
    filter_batch(json, "status", service, status)
}

/// The logs of a batch that a subscriber wants, by service and severity.
pub fn filter_log_batch(json: &str, service: &Option<String>, severity: &Option<String>) -> (r:
    Option<String>)
    ensures
        opt_text(r) == sent_of_batch(json@, "severity"@, opt_text(*service), opt_text(*severity)),
{
    filter_batch(json, "severity", service, severity)
}

// ── Laws ────────────────────────────────────────────────────────────

/// What is sent of a batch is the records of the service and the other field that
/// were asked for, in order; whoever asks for neither gets them all, and nothing is
/// sent where none is wanted.
pub proof fn wanted_records_are_those_asked_for(
    items: Seq<ItemModel>,
    service: Seq<char>,
    other: Seq<char>,
)
    ensures
        wanted_records(items, Some(service), Some(other)) == items.filter(
            |i: ItemModel| i.service == Some(service) && i.other == Some(other),
        ).map_values(|i: ItemModel| i.json),
        wanted_records(items, Some(service), None) == items.filter(
            |i: ItemModel| i.service == Some(service),
        ).map_values(|i: ItemModel| i.json),
        wanted_records(items, None, Some(other)) == items.filter(
            |i: ItemModel| i.other == Some(other),
        ).map_values(|i: ItemModel| i.json),
        wanted_records(items, None, None) == items.map_values(|i: ItemModel| i.json),
        sent_of(items, Some(service), Some(other)) is None <==> wanted_records(
            items,
            Some(service),
            Some(other),
        ).len() == 0,
    decreases items.len(),
{
    reveal(Seq::filter);
    if items.len() > 0 {
        wanted_records_are_those_asked_for(items.drop_last(), service, other);
    }
    assert(wanted_records(items, Some(service), Some(other)) =~= items.filter(
        |i: ItemModel| i.service == Some(service) && i.other == Some(other),
    ).map_values(|i: ItemModel| i.json));
    assert(wanted_records(items, Some(service), None) =~= items.filter(
        |i: ItemModel| i.service == Some(service),
    ).map_values(|i: ItemModel| i.json));
    assert(wanted_records(items, None, Some(other)) =~= items.filter(
        |i: ItemModel| i.other == Some(other),
    ).map_values(|i: ItemModel| i.json));
    assert(wanted_records(items, None, None) =~= items.map_values(|i: ItemModel| i.json));
}

/// What is sent is the records between brackets, one record alone without a comma.
pub proof fn records_are_sent_as_an_array(item: ItemModel, json: Seq<char>, field: Seq<char>)
    ensures
        sent_of(seq![item], None, None) == Some("["@ + item.json + "]"@),
        sent_of_batch(json, field, None, None) == Some(json),
{
    let items = seq![item];
    assert(items.drop_last() =~= Seq::<ItemModel>::empty());
    assert(wanted_records(items.drop_last(), None, None) =~= Seq::<Seq<char>>::empty());
    assert(wanted_records(items, None, None) =~= seq![item.json]);
}

} // verus!
