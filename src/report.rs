//! One run of the pipeline, from a batch of raw events to the context that
//! the report is rendered from.
use vstd::prelude::*;
use crate::event::{AnalyzedModel, CombinedEventData, Event, analyze_events, analyzed, models};
use crate::stats::{
    EmptyDatasetError,
    Statistics,
    compute_statistics,
    critical,
    select_critical,
    statistics_of,
};
use crate::summary::{extract_summary, prompt_of, summarization_prompt, summary_of};

verus! {

/// The calendar day a report is written for.
pub struct ReportDate {
    pub year: i32,
    pub month: u32,
    pub day: u32,
}

/// What a batch yields before the summary is asked for: its statistics,
/// the prompt for the summary, and its critical events in batch order.
pub struct BatchAnalysis {
    pub statistics: Statistics,
    pub prompt: String,
    pub critical_events: Vec<CombinedEventData>,
}

/// Everything a report is rendered from.
pub struct ReportContext {
    pub date: ReportDate,
    pub statistics: Statistics,
    pub summary: String,
    pub critical_events: Vec<CombinedEventData>,
}

/// The analysis of the analyzed events `s` of a batch.
pub open spec fn analysis_of(s: Seq<AnalyzedModel>, b: BatchAnalysis) -> bool {
    &&& statistics_of(s, b.statistics)
    &&& b.prompt@ == prompt_of(s)
    &&& models(b.critical_events@) == critical(s, b.statistics)
}

/// Extracts the batch, computes its statistics, builds the summary prompt
/// and selects the critical events. A batch in which no event carries a
/// usable annotation is reported as `EmptyDatasetError`.
pub fn analyze_batch(events: Vec<Event>) -> (r: Result<BatchAnalysis, EmptyDatasetError>)
    ensures
        r is Err <==> analyzed(events@).len() == 0,
        r matches Ok(b) ==> analysis_of(analyzed(events@), b),
{
    let analyzed_events = analyze_events(events);
    let statistics = match compute_statistics(&analyzed_events) {
        Ok(st) => st,
        Err(e) => return Err(e),
    };
    let prompt = summarization_prompt(&analyzed_events);
    let critical_events = select_critical(analyzed_events, &statistics);
    Ok(BatchAnalysis { statistics, prompt, critical_events })
}

/// The report context of an analysed batch, with the summary taken out of
/// the model's response.
pub fn assemble_report(date: ReportDate, analysis: BatchAnalysis, response: &str) -> (r:
    ReportContext)
    ensures
        r.date == date,
        r.statistics == analysis.statistics,
        r.critical_events == analysis.critical_events,
        r.summary@ == summary_of(response@),
{
    ReportContext {
        date,
        statistics: analysis.statistics,
        summary: extract_summary(response),
        critical_events: analysis.critical_events,
    }
}

} // verus!
