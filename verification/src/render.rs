//! The metadata document of an item, rendered from a template.

use vstd::prelude::*;
use handlebars::{to_json, Handlebars, JsonValue, RenderError};
use crate::entry::{DcEntry, DcEntryView};
use crate::metadata::{records_of, render_records};

verus! {

/// The template of the metadata document `dublin_core.xml`: one `dcvalue` for
/// every value of every record, in the order of the records and their values.
pub const DUBLIN_CORE_TEMPLATE: &'static str =
    "<?xml version=\"1.0\" encoding=\"UTF-8\"?>\n<dublin_core>\n{{#each this}}{{#each values}}  <dcvalue element=\"{{../element}}\" qualifier=\"{{../qualifier}}\">{{this}}</dcvalue>\n{{/each}}{{/each}}</dublin_core>\n";

/// The error of the template engine, `handlebars::RenderError`. Nothing is
/// known of what it holds.
#[verifier::external_type_specification]
#[verifier::external_body]
pub struct ExRenderError(RenderError);

/// The text that the template engine makes of a template and a list of
/// records, each record an object with the fields `element`, `qualifier` and
/// `values`; `None` where the engine reports an error.
pub uninterp spec fn rendered(template: Seq<char>, records: Seq<DcEntryView>) -> Option<Seq<char>>;

/// Renders `template` over `records` with `Handlebars::render_template`, on a
/// registry as `Handlebars::new` makes it. The data handed over is an array
/// with one object for each record, holding the record's three fields under
/// their names. Only the template of this library is ever handed over. The
/// contract claims only that the outcome is the one that `rendered` names for
/// this template and these records.
#[verifier::external_body]
fn render_with(template: &str, records: &Vec<DcEntry>) -> (outcome: Result<String, RenderError>)
    requires
        template@ == DUBLIN_CORE_TEMPLATE@,
    ensures
        match outcome {
            Ok(text) => rendered(template@, records.deep_view()) == Some(text@),
            Err(_) => rendered(template@, records.deep_view()) is None,
        },
{
    let data: Vec<JsonValue> = records.iter().map(|record| {
        JsonValue::Object([
            ("element".to_string(), to_json(&record.element)),
            ("qualifier".to_string(), to_json(&record.qualifier)),
            ("values".to_string(), to_json(&record.values)),
        ].into_iter().collect())
    }).collect();
    Handlebars::new().render_template(template, &data)
}

/// The metadata document of a list of entries: the template of this library,
/// rendered over the records that are written out for the entries.
pub open spec fn document_of(entries: Seq<DcEntryView>) -> Option<Seq<char>> {
    rendered(DUBLIN_CORE_TEMPLATE@, records_of(entries))
}

/// Renders the metadata document of a list of entries. Blank entries are left
/// out, and of the others only the values that are not empty are handed to the
/// template. Whether the document can be rendered is for the engine to say.
pub fn render_metadata(entries: &Vec<DcEntry>) -> (outcome: Result<String, RenderError>)
    ensures
        match outcome {
            Ok(text) => document_of(entries.deep_view()) == Some(text@),
            Err(_) => document_of(entries.deep_view()) is None,
        },
{
    let records = render_records(entries);
    render_with(DUBLIN_CORE_TEMPLATE, &records)
}

} // verus!
