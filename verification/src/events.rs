//! The event feed: which rows are accepted, and which row of several with
//! one event identifier survives.

use crate::arith::{clamp_i64, clamp_int};
use crate::dims::{data_lines, unknown_label};
use crate::model::{views, views_push, views_update};
use crate::rows::{csv_fields, slice_views, split_csv_line, split_lines, text_lines};
use crate::text::{
    ascii_lower, ascii_upper, bytes_less, compare_bytes, is_blank, parse_i64, parse_int,
    same_bytes, to_ascii_lower, to_ascii_upper, trim, trimmed, Rank,
};
use vstd::prelude::*;
use vstd::slice::slice_to_vec;
use vstd::string::StringSliceAdditionalSpecFns;

verus! {

/// One business event as the feed states it.
#[derive(Clone, Debug, PartialEq, Eq)]
pub struct EventRecord {
    pub event_version: i64,
    pub event_ts: Vec<u8>,
    pub event_date: Vec<u8>,
    pub customer_id: i64,
    pub product_id: i64,
    pub amount_cents: i64,
    pub quantity: i64,
    pub discount_bps: i64,
    pub shipping_cents: i64,
    pub country: Vec<u8>,
    pub customer_tier: Vec<u8>,
}

/// An event as plain values.
pub struct EventModel {
    pub event_version: int,
    pub event_ts: Seq<u8>,
    pub event_date: Seq<u8>,
    pub customer_id: int,
    pub product_id: int,
    pub amount_cents: int,
    pub quantity: int,
    pub discount_bps: int,
    pub shipping_cents: int,
    pub country: Seq<u8>,
    pub customer_tier: Seq<u8>,
}

impl View for EventRecord {
    type V = EventModel;

    open spec fn view(&self) -> EventModel {
        EventModel {
            event_version: self.event_version as int,
            event_ts: self.event_ts@,
            event_date: self.event_date@,
            customer_id: self.customer_id as int,
            product_id: self.product_id as int,
            amount_cents: self.amount_cents as int,
            quantity: self.quantity as int,
            discount_bps: self.discount_bps as int,
            shipping_cents: self.shipping_cents as int,
            country: self.country@,
            customer_tier: self.customer_tier@,
        }
    }
}

/// An accepted row of the feed: an event under its identifier.
#[derive(Clone, Debug, PartialEq, Eq)]
pub struct Candidate {
    pub event_id: Vec<u8>,
    pub record: EventRecord,
}

/// A candidate as plain values.
pub struct CandidateModel {
    pub event_id: Seq<u8>,
    pub record: EventModel,
}

impl View for Candidate {
    type V = CandidateModel;

    open spec fn view(&self) -> CandidateModel {
        CandidateModel { event_id: self.event_id@, record: self.record@ }
    }
}

/// The tier that a field of the feed gives: trimmed and in lower case if
/// that is one of the four known tiers, the unknown label otherwise.
pub open spec fn tier_of(field: Seq<u8>) -> Seq<u8> {
    let tier = ascii_lower(trimmed(field));
    if tier == "bronze".spec_bytes() || tier == "silver".spec_bytes() || tier
        == "gold".spec_bytes() || tier == "platinum".spec_bytes() {
        tier
    } else {
        unknown_label()
    }
}

/// The candidate that the fields of a row give when the row is accepted.
pub open spec fn candidate_of(cols: Seq<Seq<u8>>) -> CandidateModel
    recommends
        cols.len() >= 14,
{
    CandidateModel {
        event_id: trimmed(cols[0]),
        record: EventModel {
            event_version: parse_int(cols[1]),
            event_ts: trimmed(cols[2]),
            event_date: trimmed(cols[3]),
            customer_id: parse_int(cols[4]),
            product_id: parse_int(cols[5]),
            amount_cents: parse_int(cols[6]),
            quantity: parse_int(cols[7]),
            discount_bps: clamp_int(parse_int(cols[8]), 0, 5000),
            shipping_cents: clamp_int(parse_int(cols[9]), 0, 25_000),
            country: ascii_upper(trimmed(cols[11])),
            customer_tier: tier_of(cols[12]),
        },
    }
}

/// Whether a row with these fields is accepted: it has an identifier, its
/// status is COMPLETE in any letter case, amount, quantity, customer and
/// product are positive, and date and timestamp are not empty.
pub open spec fn acceptable(cols: Seq<Seq<u8>>) -> bool
    recommends
        cols.len() >= 14,
{
    let c = candidate_of(cols);
    &&& c.event_id.len() > 0
    &&& ascii_upper(trimmed(cols[10])) == "COMPLETE".spec_bytes()
    &&& c.record.amount_cents > 0
    &&& c.record.quantity > 0
    &&& c.record.customer_id > 0
    &&& c.record.product_id > 0
    &&& c.record.event_date.len() > 0
    &&& c.record.event_ts.len() > 0
}

/// The candidate that a line of the feed gives, or none when the line is
/// blank, has fewer than fourteen fields or is not acceptable.
pub open spec fn event_row(line: Seq<u8>) -> Option<CandidateModel> {
    let cols = csv_fields(line);
    if is_blank(line) || cols.len() < 14 || !acceptable(cols) {
        None
    } else {
        Some(candidate_of(cols))
    }
}

/// Number of lines that are not blank.
pub open spec fn raw_count(lines: Seq<Seq<u8>>) -> nat
    decreases lines.len(),
{
    if lines.len() == 0 {
        0
    } else if is_blank(lines.last()) {
        raw_count(lines.drop_last())
    } else {
        raw_count(lines.drop_last()) + 1
    }
}

/// The candidates of the accepted lines, in the order of the lines.
pub open spec fn accepted_rows(lines: Seq<Seq<u8>>) -> Seq<CandidateModel>
    decreases lines.len(),
{
    if lines.len() == 0 {
        Seq::empty()
    } else {
        match event_row(lines.last()) {
            Some(candidate) => accepted_rows(lines.drop_last()).push(candidate),
            None => accepted_rows(lines.drop_last()),
        }
    }
}

/// Whether `candidate` replaces `current`: it has the greater version, or
/// the same version and the greater timestamp text.
pub open spec fn beats(candidate: EventModel, current: EventModel) -> bool {
    candidate.event_version > current.event_version || (candidate.event_version
        == current.event_version && bytes_less(current.event_ts, candidate.event_ts))
}

/// First position at or after `from` whose candidate has the identifier
/// `id`, or the length of `list` when there is none.
pub open spec fn find_id(list: Seq<CandidateModel>, id: Seq<u8>, from: int) -> int
    decreases list.len() - from,
{
    if from >= list.len() || list[from].event_id == id {
        from
    } else {
        find_id(list, id, from + 1)
    }
}

/// The list after `candidate` was offered to it: appended when its
/// identifier is new, put in the place of the holder of its identifier
/// when it beats that holder, and left out otherwise.
pub open spec fn offer(list: Seq<CandidateModel>, candidate: CandidateModel) -> Seq<
    CandidateModel,
> {
    let at = find_id(list, candidate.event_id, 0);
    if at >= list.len() {
        list.push(candidate)
    } else if beats(candidate.record, list[at].record) {
        list.update(at, candidate)
    } else {
        list
    }
}

/// The candidates that survive when all of `candidates` are offered in
/// order, starting from nothing. Each identifier keeps the place of its
/// first candidate.
pub open spec fn survivors(candidates: Seq<CandidateModel>) -> Seq<CandidateModel>
    decreases candidates.len(),
{
    if candidates.len() == 0 {
        Seq::empty()
    } else {
        offer(survivors(candidates.drop_last()), candidates.last())
    }
}

/// What holds of every accepted row: identifier, date and timestamp are
/// not empty, amount, quantity, customer and product are positive, and
/// discount and shipping lie in their ranges.
pub open spec fn is_valid_candidate(candidate: CandidateModel) -> bool {
    &&& candidate.event_id.len() > 0
    &&& candidate.record.event_ts.len() > 0
    &&& candidate.record.event_date.len() > 0
    &&& candidate.record.customer_id > 0
    &&& candidate.record.product_id > 0
    &&& candidate.record.amount_cents > 0
    &&& candidate.record.quantity > 0
    &&& 0 <= candidate.record.discount_bps <= 5000
    &&& 0 <= candidate.record.shipping_cents <= 25_000
}

/// Every accepted row is valid.
pub proof fn accepted_rows_are_valid(lines: Seq<Seq<u8>>, i: int)
    requires
        0 <= i < accepted_rows(lines).len(),
    ensures
        is_valid_candidate(accepted_rows(lines)[i]),
    decreases lines.len(),
{
    if lines.len() > 0 && !(event_row(lines.last()) is Some && i == accepted_rows(lines).len()
        - 1) {
        accepted_rows_are_valid(lines.drop_last(), i);
    }
}

/// No more rows are accepted than are counted as raw.
pub proof fn accepted_at_most_raw(lines: Seq<Seq<u8>>)
    ensures
        accepted_rows(lines).len() <= raw_count(lines),
    decreases lines.len(),
{
    if lines.len() > 0 {
        accepted_at_most_raw(lines.drop_last());
    }
}

/// No more candidates survive than were offered.
pub proof fn survivors_at_most_candidates(candidates: Seq<CandidateModel>)
    ensures
        survivors(candidates).len() <= candidates.len(),
    decreases candidates.len(),
{
    if candidates.len() > 0 {
        survivors_at_most_candidates(candidates.drop_last());
        find_id_bounds(survivors(candidates.drop_last()), candidates.last().event_id, 0);
    }
}

/// Where `find_id` lands: on a candidate with the identifier or on the
/// end, with no such candidate passed over.
pub proof fn find_id_bounds(list: Seq<CandidateModel>, id: Seq<u8>, from: int)
    requires
        0 <= from <= list.len(),
    ensures
        from <= find_id(list, id, from) <= list.len(),
        find_id(list, id, from) < list.len() ==> list[find_id(list, id, from)].event_id == id,
        forall|k: int| from <= k < find_id(list, id, from) ==> list[k].event_id != id,
    decreases list.len() - from,
{
    if from < list.len() && list[from].event_id != id {
        find_id_bounds(list, id, from + 1);
    }
}

/// No two candidates of `list` share an identifier.
pub open spec fn distinct_ids(list: Seq<CandidateModel>) -> bool {
    forall|i: int, j: int| 0 <= i < j < list.len() ==> list[i].event_id != list[j].event_id
}

/// No event beats itself.
pub proof fn beats_irreflexive(a: EventModel)
    ensures
        !beats(a, a),
{
    crate::text::bytes_less_irreflexive(a.event_ts);
}

/// An event that beats one that beats a third beats the third.
pub proof fn beats_transitive(a: EventModel, b: EventModel, c: EventModel)
    ensures
        beats(a, b) && beats(b, c) ==> beats(a, c),
{
    crate::text::bytes_less_transitive(c.event_ts, b.event_ts, a.event_ts);
}

/// Offering a candidate keeps the identifiers distinct.
pub proof fn offer_keeps_distinct(list: Seq<CandidateModel>, candidate: CandidateModel)
    requires
        distinct_ids(list),
    ensures
        distinct_ids(offer(list, candidate)),
{
    find_id_bounds(list, candidate.event_id, 0);
}

/// Among the survivors every identifier occurs once.
pub proof fn survivors_distinct(candidates: Seq<CandidateModel>)
    ensures
        distinct_ids(survivors(candidates)),
    decreases candidates.len(),
{
    if candidates.len() > 0 {
        survivors_distinct(candidates.drop_last());
        offer_keeps_distinct(survivors(candidates.drop_last()), candidates.last());
    }
}

/// Every survivor is one of the candidates: the result is the position of
/// a candidate equal to the survivor at `j`.
pub proof fn survivor_is_candidate(candidates: Seq<CandidateModel>, j: int) -> (k: int)
    requires
        0 <= j < survivors(candidates).len(),
    ensures
        0 <= k < candidates.len(),
        candidates[k] == survivors(candidates)[j],
    decreases candidates.len(),
{
    let earlier = candidates.drop_last();
    let kept = survivors(earlier);
    let last = candidates.last();
    find_id_bounds(kept, last.event_id, 0);
    if survivors(candidates)[j] == last {
        candidates.len() - 1
    } else {
        survivor_is_candidate(earlier, j)
    }
}

/// Whatever the order of the rows, no candidate beats the survivor of its
/// identifier: the result is the position of a survivor with the
/// identifier of the candidate at `k` that this candidate does not beat.
pub proof fn survivor_not_beaten(candidates: Seq<CandidateModel>, k: int) -> (j: int)
    requires
        0 <= k < candidates.len(),
    ensures
        0 <= j < survivors(candidates).len(),
        survivors(candidates)[j].event_id == candidates[k].event_id,
        !beats(candidates[k].record, survivors(candidates)[j].record),
    decreases candidates.len(),
{
    let earlier = candidates.drop_last();
    let kept = survivors(earlier);
    let last = candidates.last();
    let at = find_id(kept, last.event_id, 0);
    find_id_bounds(kept, last.event_id, 0);
    beats_irreflexive(last.record);
    if k == candidates.len() - 1 {
        at
    } else {
        let j = survivor_not_beaten(earlier, k);
        if j == at {
            beats_transitive(candidates[k].record, last.record, kept[at].record);
        }
        j
    }
}

proof fn survivors_of_two(a: CandidateModel, b: CandidateModel)
    ensures
        survivors(seq![a, b]) == offer(seq![a], b),
{
    assert(seq![a, b].drop_last() =~= seq![a]);
    assert(seq![a].drop_last() =~= Seq::<CandidateModel>::empty());
    assert(survivors(seq![a]) == offer(survivors(Seq::<CandidateModel>::empty()), a));
    assert(survivors(Seq::<CandidateModel>::empty()) =~= Seq::<CandidateModel>::empty());
    assert(find_id(Seq::<CandidateModel>::empty(), a.event_id, 0) == 0);
    assert(offer(Seq::<CandidateModel>::empty(), a) =~= seq![a]);
}

/// Of two rows with one identifier the row with the higher version
/// survives, whichever comes first.
pub proof fn higher_version_wins(a: CandidateModel, b: CandidateModel)
    requires
        a.event_id == b.event_id,
        a.record.event_version > b.record.event_version,
    ensures
        survivors(seq![a, b]) == seq![a],
        survivors(seq![b, a]) == seq![a],
{
    survivors_of_two(a, b);
    survivors_of_two(b, a);
    assert(find_id(seq![a], b.event_id, 0) == 0);
    assert(find_id(seq![b], a.event_id, 0) == 0);
    assert(seq![b].update(0, a) =~= seq![a]);
}

/// Of two rows with one identifier and one version the row with the
/// greater timestamp text survives, whichever comes first.
pub proof fn greater_timestamp_wins(a: CandidateModel, b: CandidateModel)
    requires
        a.event_id == b.event_id,
        a.record.event_version == b.record.event_version,
        bytes_less(b.record.event_ts, a.record.event_ts),
    ensures
        survivors(seq![a, b]) == seq![a],
        survivors(seq![b, a]) == seq![a],
{
    survivors_of_two(a, b);
    survivors_of_two(b, a);
    crate::text::bytes_less_asymmetric(a.record.event_ts, b.record.event_ts);
    assert(find_id(seq![a], b.event_id, 0) == 0);
    assert(find_id(seq![b], a.event_id, 0) == 0);
    assert(seq![b].update(0, a) =~= seq![a]);
}

fn tier_from_field(field: &[u8]) -> (tier: Vec<u8>)
    ensures
        tier@ == tier_of(field@),
{
    let lowered: Vec<u8> = to_ascii_lower(trim(field));
    if same_bytes(lowered.as_slice(), "bronze".as_bytes()) || same_bytes(
        lowered.as_slice(),
        "silver".as_bytes(),
    ) || same_bytes(lowered.as_slice(), "gold".as_bytes()) || same_bytes(
        lowered.as_slice(),
        "platinum".as_bytes(),
    ) {
        lowered
    } else {
        "unknown".as_bytes_vec()
    }
}

/// Reads one line of the feed.
pub fn parse_event_row(line: &[u8]) -> (row: Option<Candidate>)
    ensures
        match row {
            Some(candidate) => event_row(line@) == Some(candidate@),
            None => event_row(line@) is None,
        },
{
    if trim(line).len() == 0 {
        return None;
    }
    let cols: Vec<&[u8]> = split_csv_line(line);
    if cols.len() < 14 {
        return None;
    }
    let ghost fields = csv_fields(line@);
    assert(forall|i: int| 0 <= i < 14 ==> fields[i] == cols@[i]@);
    let event_id: &[u8] = trim(cols[0]);
    let event_version: i64 = parse_i64(cols[1]);
    let event_ts: &[u8] = trim(cols[2]);
    let event_date: &[u8] = trim(cols[3]);
    let customer_id: i64 = parse_i64(cols[4]);
    let product_id: i64 = parse_i64(cols[5]);
    let amount_cents: i64 = parse_i64(cols[6]);
    let quantity: i64 = parse_i64(cols[7]);
    let discount_bps: i64 = clamp_i64(parse_i64(cols[8]), 0, 5000);
    let shipping_cents: i64 = clamp_i64(parse_i64(cols[9]), 0, 25_000);
    let status: Vec<u8> = to_ascii_upper(trim(cols[10]));
    let country: Vec<u8> = to_ascii_upper(trim(cols[11]));
    let customer_tier: Vec<u8> = tier_from_field(cols[12]);
    if event_id.len() == 0 || !same_bytes(status.as_slice(), "COMPLETE".as_bytes())
        || amount_cents <= 0 || quantity <= 0 {
        return None;
    }
    if customer_id <= 0 || product_id <= 0 || event_date.len() == 0 || event_ts.len() == 0 {
        return None;
    }
    Some(
        Candidate {
            event_id: slice_to_vec(event_id),
            record: EventRecord {
                event_version,
                event_ts: slice_to_vec(event_ts),
                event_date: slice_to_vec(event_date),
                customer_id,
                product_id,
                amount_cents,
                quantity,
                discount_bps,
                shipping_cents,
                country,
                customer_tier,
            },
        },
    )
}

/// Whether `candidate` replaces `current`; see [`beats`].
pub fn should_replace(candidate: &EventRecord, current: &EventRecord) -> (r: bool)
    ensures
        r == beats(candidate@, current@),
{
    if candidate.event_version > current.event_version {
        true
    } else if candidate.event_version == current.event_version {
        match compare_bytes(candidate.event_ts.as_slice(), current.event_ts.as_slice()) {
            Rank::After => true,
            _ => false,
        }
    } else {
        false
    }
}

/// Offers a candidate to the list of the candidates kept so far; see
/// [`offer`].
pub fn offer_candidate(list: &mut Vec<Candidate>, candidate: Candidate)
    ensures
        views(final(list)@) == offer(views(old(list)@), candidate@),
{
    let ghost kept = views(list@);
    let mut at: usize = 0;
    while at < list.len() && !same_bytes(
        list[at].event_id.as_slice(),
        candidate.event_id.as_slice(),
    )
        invariant
            at <= list@.len(),
            list@ == old(list)@,
            kept == views(list@),
            find_id(kept, candidate@.event_id, 0) == find_id(kept, candidate@.event_id, at as int),
        decreases list@.len() - at,
    {
        at = at + 1;
    }
    if at == list.len() {
        proof {
            views_push(list@, candidate);
        }
        list.push(candidate);
    } else if should_replace(&candidate.record, &list[at].record) {
        proof {
            views_update(list@, at as int, candidate);
        }
        list.set(at, candidate);
    }
}

/// What reading the feed gives.
#[derive(Clone, Debug, PartialEq, Eq)]
pub struct EventLoad {
    /// The surviving candidates, each identifier in the place of its
    /// first accepted row.
    pub survivors: Vec<Candidate>,
    /// Number of data lines that are not blank.
    pub raw_rows: usize,
    /// Number of accepted rows.
    pub filtered_rows: usize,
}

/// Reads the event feed: a heading line followed by one event per line. Every
/// line that is not blank is counted as raw, every accepted one as
/// filtered, and of the accepted rows with one identifier the survivor is
/// kept.
pub fn load_events(text: &[u8]) -> (load: EventLoad)
    ensures
        views(load.survivors@) == survivors(accepted_rows(data_lines(text@))),
        load.raw_rows == raw_count(data_lines(text@)),
        load.filtered_rows == accepted_rows(data_lines(text@)).len(),
{
    let lines: Vec<&[u8]> = split_lines(text);
    let mut kept: Vec<Candidate> = Vec::new();
    let mut raw_rows: usize = 0;
    let mut filtered_rows: usize = 0;
    let ghost data = data_lines(text@);
    let mut idx: usize = 1;
    assert(data.take(0) =~= Seq::empty());
    assert(views(kept@) =~= Seq::empty());
    while idx < lines.len()
        invariant
            1 <= idx,
            slice_views(lines@) == text_lines(text@),
            data == data_lines(text@),
            raw_rows <= idx - 1,
            filtered_rows <= idx - 1,
            idx <= lines@.len() ==> {
                &&& views(kept@) == survivors(accepted_rows(data.take(idx - 1)))
                &&& raw_rows == raw_count(data.take(idx - 1))
                &&& filtered_rows == accepted_rows(data.take(idx - 1)).len()
            },
            idx > lines@.len() ==> {
                &&& views(kept@) == survivors(accepted_rows(data))
                &&& raw_rows == raw_count(data)
                &&& filtered_rows == accepted_rows(data).len()
            },
        decreases lines@.len() - idx,
    {
        let line: &[u8] = lines[idx];
        proof {
            assert(data.take(idx as int).drop_last() =~= data.take(idx - 1));
            assert(data.take(idx as int).last() == line@);
        }
        if trim(line).len() != 0 {
            raw_rows = raw_rows + 1;
        }
        match parse_event_row(line) {
            Some(candidate) => {
                filtered_rows = filtered_rows + 1;
                proof {
                    assert(accepted_rows(data.take(idx as int)).drop_last()
                        =~= accepted_rows(data.take(idx - 1)));
                }
                offer_candidate(&mut kept, candidate);
            },
            None => {},
        }
        idx = idx + 1;
    }
    proof {
        if lines@.len() >= 1 {
            assert(data.take(lines@.len() - 1) =~= data);
        } else {
            assert(data =~= Seq::empty());
        }
    }
    EventLoad { survivors: kept, raw_rows, filtered_rows }
}

} // verus!
