//! The narrative summary: the prompt built from the batch's descriptions,
//! and the final answer taken out of the model's response.
use vstd::prelude::*;
use crate::event::{AnalyzedModel, CombinedEventData, models};
use crate::text::{after_last, text_after_last};

verus! {

/// Model that writes the daily summary.
pub const SUMMARY_MODEL: &'static str = "deepseek-r1:32b";

/// Instruction put before the events' narratives.
pub const SUMMARY_INSTRUCTION: &'static str =
    "Summarize the data contained in these events gathered from a security camera system. ";

/// Token that closes the model's reasoning trace.
pub const REASONING_END: &'static str = "</think>";

/// The descriptions of the events, joined in order without separator.
pub open spec fn joined_descriptions(s: Seq<AnalyzedModel>) -> Seq<char>
    decreases s.len(),
{
    if s.len() == 0 {
        Seq::empty()
    } else {
        joined_descriptions(s.drop_last()) + s.last().1.3
    }
}

/// The prompt that asks for a summary of the events.
pub open spec fn prompt_of(s: Seq<AnalyzedModel>) -> Seq<char> {
    SUMMARY_INSTRUCTION@ + joined_descriptions(s)
}

/// The answer part of a response: what follows the last end of a
/// reasoning trace, or the whole response when there is none.
pub open spec fn summary_of(response: Seq<char>) -> Seq<char> {
    after_last(response, REASONING_END@)
}

/// Joins the descriptions of the events, in order.
pub fn combine_descriptions(events: &Vec<CombinedEventData>) -> (r: String)
    ensures
        r@ == joined_descriptions(models(events@)),
{
    let mut out = String::new();
    let mut i: usize = 0;
    while i < events.len()
        invariant
            i <= events@.len(),
            out@ == joined_descriptions(models(events@.take(i as int))),
        decreases events@.len() - i,
    {
        proof {
            let m = models(events@.take(i as int));
            assert(models(events@.take(i + 1)) =~= m.push(models(events@)[i as int]));
            assert(m.push(models(events@)[i as int]).drop_last() =~= m);
        }
        out.append(events[i].inferreddata.description.as_str());
        i = i + 1;
    }
    assert(events@.take(events@.len() as int) =~= events@);
    out
}

/// The prompt asking for a summary of the events.
pub fn summarization_prompt(events: &Vec<CombinedEventData>) -> (r: String)
    ensures
        r@ == prompt_of(models(events@)),
{
    let mut prompt = String::from_str(SUMMARY_INSTRUCTION);
    let joined = combine_descriptions(events);
    prompt.append(joined.as_str());
    prompt
}

/// The summary carried by a model response, as `summary_of` says.
pub fn extract_summary(response: &str) -> (r: String)
    ensures
        r@ == summary_of(response@),
{
    text_after_last(response, REASONING_END)
}

} // verus!
