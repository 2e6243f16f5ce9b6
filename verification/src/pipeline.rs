//! The whole transform: from the three tables to the report.

use crate::aggregate::{
    aggregate, all_totals_fit, key_less, key_of, report_is_sorted, report_rows,
    report_rows_same_spend, vip_orders_are_counted, GroupModel,
};
use crate::dims::{country_rows, data_lines, load_country_dim, load_product_dim, product_rows};
use crate::enrich::{all_rows_fit, derived_rows, enrich_all, DerivedModel};
use crate::events::{
    accepted_at_most_raw, accepted_rows, load_events, raw_count, survivors,
    survivors_at_most_candidates, CandidateModel,
};
use crate::model::views;
use crate::reorder::{records_ignore_order, report_ignores_order};
use crate::report::{render_report, report_text};
use crate::spend::{build_spend_index, day_spend, day_totals, spend_of};
use vstd::prelude::*;

verus! {

/// What a run gives: the text of the report and three counts.
#[derive(Clone, Debug, PartialEq, Eq)]
pub struct TransformOutput {
    /// The report, heading line first.
    pub report: Vec<u8>,
    /// Number of data lines of the feed that are not blank.
    pub raw_rows: usize,
    /// Number of accepted rows of the feed.
    pub filtered_rows: usize,
    /// Number of surviving events.
    pub dedup_rows: usize,
}

/// The outcome of a run as plain values.
pub struct OutputModel {
    pub report: Seq<u8>,
    pub raw_rows: nat,
    pub filtered_rows: nat,
    pub dedup_rows: nat,
}

impl View for TransformOutput {
    type V = OutputModel;

    open spec fn view(&self) -> OutputModel {
        OutputModel {
            report: self.report@,
            raw_rows: self.raw_rows as nat,
            filtered_rows: self.filtered_rows as nat,
            dedup_rows: self.dedup_rows as nat,
        }
    }
}

/// Why a run gives no report.
#[derive(Clone, Copy, Debug, PartialEq, Eq)]
pub enum TransformError {
    /// An amount of an event, or a sum of a group, cannot be held in 64
    /// bits.
    Overflow,
}

impl TransformError {
    /// A sentence that says what went wrong.
    pub fn message(&self) -> (text: String)
        ensures
            text@ == "an amount or a sum does not fit in 64 bits"@,
    {
        match self {
            TransformError::Overflow => "an amount or a sum does not fit in 64 bits".to_owned(),
        }
    }
}

/// The surviving events of a feed.
pub open spec fn feed_survivors(events: Seq<u8>) -> Seq<CandidateModel> {
    survivors(accepted_rows(data_lines(events)))
}

/// The derived records of a run, one for each surviving event.
pub open spec fn run_records(events: Seq<u8>, products: Seq<u8>, countries: Seq<u8>) -> Seq<
    DerivedModel,
> {
    derived_rows(
        feed_survivors(events),
        product_rows(data_lines(products)),
        country_rows(data_lines(countries)),
    )
}

/// The rows of the report of a run.
pub open spec fn run_report(events: Seq<u8>, products: Seq<u8>, countries: Seq<u8>) -> Seq<
    GroupModel,
> {
    let records = run_records(events, products, countries);
    report_rows(records, day_totals(records))
}

/// Whether every amount and every sum of a run can be held in 64 bits.
pub open spec fn run_fits(events: Seq<u8>, products: Seq<u8>, countries: Seq<u8>) -> bool {
    &&& all_rows_fit(
        feed_survivors(events),
        product_rows(data_lines(products)),
        country_rows(data_lines(countries)),
    )
    &&& all_totals_fit(run_report(events, products, countries))
}

/// The outcome of a run on the three tables, or `None` when an amount or
/// a sum cannot be held in 64 bits.
pub open spec fn run_outcome(events: Seq<u8>, products: Seq<u8>, countries: Seq<u8>) -> Option<
    OutputModel,
> {
    if run_fits(events, products, countries) {
        Some(
            OutputModel {
                report: report_text(run_report(events, products, countries)),
                raw_rows: raw_count(data_lines(events)),
                filtered_rows: accepted_rows(data_lines(events)).len(),
                dedup_rows: feed_survivors(events).len(),
            },
        )
    } else {
        None
    }
}

/// Whether `result` is what a run on the three tables may return.
pub open spec fn is_outcome_of(
    result: Result<OutputModel, TransformError>,
    events: Seq<u8>,
    products: Seq<u8>,
    countries: Seq<u8>,
) -> bool {
    match result {
        Ok(output) => run_outcome(events, products, countries) == Some(output),
        Err(_) => run_outcome(events, products, countries) is None,
    }
}

/// Two runs on the same tables end the same way, report and counts byte
/// for byte.
pub proof fn runs_agree(
    events: Seq<u8>,
    products: Seq<u8>,
    countries: Seq<u8>,
    first: Result<OutputModel, TransformError>,
    second: Result<OutputModel, TransformError>,
)
    requires
        is_outcome_of(first, events, products, countries),
        is_outcome_of(second, events, products, countries),
    ensures
        first == second,
{
    if let Err(one) = first {
        if let Err(other) = second {
            assert(one is Overflow && other is Overflow);
        }
    }
}

/// The rows of the report of a run come in strictly increasing order of
/// their keys, so no key occurs twice.
pub proof fn run_report_is_sorted(events: Seq<u8>, products: Seq<u8>, countries: Seq<u8>)
    ensures
        forall|i: int, j: int|
            0 <= i < j < run_report(events, products, countries).len() ==> key_less(
                run_report(events, products, countries)[i].key,
                run_report(events, products, countries)[j].key,
            ),
        forall|i: int, j: int|
            0 <= i < j < run_report(events, products, countries).len() ==> run_report(
                events,
                products,
                countries,
            )[i].key != run_report(events, products, countries)[j].key,
{
    let records = run_records(events, products, countries);
    report_is_sorted(records, day_totals(records));
}

/// In a run, when the records of a customer on a day sum to 50000 or
/// more, the row of each of these records has counted a VIP order: the
/// result is the position in the report of the row of the record at `i`.
pub proof fn run_report_counts_vip(
    events: Seq<u8>,
    products: Seq<u8>,
    countries: Seq<u8>,
    i: int,
) -> (g: int)
    requires
        0 <= i < run_records(events, products, countries).len(),
        day_spend(
            run_records(events, products, countries),
            run_records(events, products, countries)[i].event_date,
            run_records(events, products, countries)[i].customer_id,
        ) >= 50_000,
    ensures
        0 <= g < run_report(events, products, countries).len(),
        run_report(events, products, countries)[g].key == key_of(
            run_records(events, products, countries)[i],
        ),
        run_report(events, products, countries)[g].totals.vip_customer_orders >= 1,
{
    let records = run_records(events, products, countries);
    assert forall|date: Seq<u8>, customer: int| #[trigger]
        spend_of(day_totals(records), date, customer) == day_spend(records, date, customer) by {}
    vip_orders_are_counted(records, day_totals(records), i)
}

/// The report of a run does not depend on the order in which the
/// surviving events are enriched: any arrangement of the survivors gives
/// the rows of the run.
pub proof fn run_report_ignores_order(
    events: Seq<u8>,
    products: Seq<u8>,
    countries: Seq<u8>,
    arrangement: Seq<CandidateModel>,
)
    requires
        arrangement.to_multiset() == feed_survivors(events).to_multiset(),
    ensures
        ({
            let records = derived_rows(
                arrangement,
                product_rows(data_lines(products)),
                country_rows(data_lines(countries)),
            );
            report_rows(records, day_totals(records)) == run_report(events, products, countries)
        }),
{
    let product_table = product_rows(data_lines(products));
    let country_table = country_rows(data_lines(countries));
    records_ignore_order(arrangement, feed_survivors(events), product_table, country_table);
    report_ignores_order(
        derived_rows(arrangement, product_table, country_table),
        run_records(events, products, countries),
    );
}

/// Of the three counts of a run each is at most the one before it: no
/// more events survive than rows were accepted, and no more rows were
/// accepted than were read.
pub proof fn run_counts_are_ordered(events: Seq<u8>, products: Seq<u8>, countries: Seq<u8>)
    ensures
        run_outcome(events, products, countries) matches Some(output) ==> output.dedup_rows
            <= output.filtered_rows <= output.raw_rows,
{
    accepted_at_most_raw(data_lines(events));
    survivors_at_most_candidates(accepted_rows(data_lines(events)));
}

/// The model of the result of a run.
pub open spec fn result_model(result: Result<TransformOutput, TransformError>) -> Result<
    OutputModel,
    TransformError,
> {
    match result {
        Ok(output) => Ok(output@),
        Err(error) => Err(error),
    }
}

/// Runs the transform on the texts of the event feed, the product table
/// and the country table. It reads the tables, keeps of each event the
/// surviving row, enriches the survivors, sums what each customer spent
/// on each day, groups and sums the records, and writes the report. The
/// run fails exactly when an amount of a surviving event or a sum of a
/// group cannot be held in 64 bits.
pub fn transform(events: &[u8], products: &[u8], countries: &[u8]) -> (r: Result<
    TransformOutput,
    TransformError,
>)
    ensures
        r is Ok <==> run_fits(events@, products@, countries@),
        r matches Ok(output) ==> run_outcome(events@, products@, countries@) == Some(output@),
        is_outcome_of(result_model(r), events@, products@, countries@),
{
    let product_table = load_product_dim(products);
    let country_table = load_country_dim(countries);
    let load = load_events(events);
    let records = match enrich_all(&load.survivors, &product_table, &country_table) {
        Some(records) => records,
        None => {
            return Err(TransformError::Overflow);
        },
    };
    let spend = build_spend_index(&records);
    proof {
        let rows = views(records@);
        assert(rows == run_records(events@, products@, countries@));
        assert forall|date: Seq<u8>, customer: int| #[trigger]
            spend_of(spend@, date, customer) == spend_of(day_totals(rows), date, customer) by {
            assert(spend_of(spend@, date, customer) == day_spend(rows, date, customer));
        }
        report_rows_same_spend(rows, spend@, day_totals(rows));
    }
    let groups = match aggregate(&records, &spend) {
        Some(groups) => groups,
        None => {
            return Err(TransformError::Overflow);
        },
    };
    let report = render_report(&groups);
    Ok(
        TransformOutput {
            report,
            raw_rows: load.raw_rows,
            filtered_rows: load.filtered_rows,
            dedup_rows: load.survivors.len(),
        },
    )
}

} // verus!
