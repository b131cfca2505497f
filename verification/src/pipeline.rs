use vstd::prelude::*;

use crate::aggregate::spec_absorb;
use crate::aggregate::AggregationConfig;
use crate::aggregate::Reducer;
use crate::dates::Date;
use crate::infer::infer_activation_date;
use crate::infer::inferred_date;
use crate::infer::DateStrategy;
use crate::rows::csv_table_of;
use crate::rows::decode_file;
use crate::rows::spec_decode_table;
use crate::rows::DecodeError;
use crate::rows::DecodeErrorView;

verus! {

/// One file, start to finish: decode its bytes, infer its activation date,
/// and fold every row into the two maps. A decode refusal aborts with the
/// maps untouched; a file without a date is skipped, also untouched. Ok
/// carries the keys that collided, in order, for the caller to report.
pub fn process_file(
    red: &mut Reducer,
    cfg: AggregationConfig,
    strategy: DateStrategy,
    filename: &str,
    modified_day: Option<Date>,
    bytes: &Vec<u8>,
) -> (r: Result<Vec<String>, DecodeError>)
    requires
        old(red).wf(),
        modified_day matches Some(d) ==> d.well_formed(),
    ensures
        final(red).wf(),
        (match csv_table_of(bytes@) {
            None => r matches Err(e) && e@ == DecodeErrorView::Malformed && *final(red) == *old(
                red,
            ),
            Some(t) => (match spec_decode_table(t.0, t.1) {
                Err(e) => r matches Err(x) && x@ == e && *final(red) == *old(red),
                Ok(rows) => (match inferred_date(strategy, filename@, modified_day) {
                    None => r matches Ok(v) && v@.len() == 0 && *final(red) == *old(red),
                    Some(d) => ({
                        let o = spec_absorb(
                            old(red).intermediari@,
                            old(red).organizations@,
                            rows,
                            d,
                            cfg,
                        );
                        &&& r matches Ok(v) && v.deep_view() == o.log
                        &&& final(red).intermediari@ == o.intermediari
                        &&& final(red).organizations@ == o.organizations
                    }),
                }),
            }),
        }),
{
    let rows = match decode_file(bytes) {
        Ok(v) => v,
        Err(e) => {
            return Err(e);
        },
    };
    let date = match infer_activation_date(strategy, filename, modified_day) {
        Some(d) => d,
        None => {
            return Ok(Vec::new());
        },
    };
    Ok(red.absorb_rows(&rows, date, cfg))
}

} // verus!
