//! The ruling assembly pipeline's pure core: grounding-context
//! rendering, prompt construction, and interpretation of the external
//! service's response. The network call itself lives outside the
//! library; it hands back an `ApiOutcome`, and everything before and
//! after it is verified here.

use vstd::prelude::*;

use crate::rule::{rules_view, Rule, RuleView};
use crate::text::{int_digits, decimal_string_i32};

verus! {

/// The citation's page part: the page number in decimal, or `N/A` when
/// the record has none.
pub open spec fn page_str(p: Option<i32>) -> Seq<char> {
    match p {
        Some(n) => int_digits(n as int),
        None => ("N/A")@,
    }
}

/// One grounding block: the record's title, its text, and a source
/// citation line.
pub open spec fn block_of(v: RuleView) -> Seq<char> {
    ("## ")@ + v.title + ("\n")@ + v.content + ("\n(Source: ")@ + v.source + (", Page ")@
        + page_str(v.page) + (")\n")@
}

/// The grounding blocks joined with blank-line separation, in the
/// order the records were handed in.
pub open spec fn blocks_joined(rs: Seq<RuleView>) -> Seq<char>
    decreases rs.len(),
{
    if rs.len() == 0 {
        Seq::empty()
    } else if rs.len() == 1 {
        block_of(rs[0])
    } else {
        blocks_joined(rs.drop_last()) + ("\n")@ + block_of(rs.last())
    }
}

/// The grounding context: a fixed placeholder when no records are
/// relevant, else the joined blocks.
pub open spec fn context_of(rs: Seq<RuleView>) -> Seq<char> {
    if rs.len() == 0 {
        ("No specific rules found for context.")@
    } else {
        blocks_joined(rs)
    }
}

/// With no relevant records the context is exactly the fixed
/// placeholder.
pub proof fn lemma_context_of_empty()
    ensures
        context_of(Seq::<RuleView>::empty()) == ("No specific rules found for context.")@,
{
}

/// Appends one grounding block to `out`.
fn append_block(out: &mut String, rule: &Rule)
    ensures
        final(out)@ == old(out)@ + block_of(rule@),
{
    out.append("## ");
    out.append(rule.title.as_str());
    out.append("\n");
    out.append(rule.content.as_str());
    out.append("\n(Source: ");
    out.append(rule.source.as_str());
    out.append(", Page ");
    match rule.page {
        Some(n) => {
            let d = decimal_string_i32(n);
            out.append(d.as_str());
        },
        None => {
            out.append("N/A");
        },
    }
    out.append(")\n");
    proof {
        assert(out@ =~= old(out)@ + block_of(rule@));
    }
}

/// Renders the grounding context for the given records: one block per
/// record with its title, text and citation line — the page shown as
/// `N/A` when absent — joined with blank-line separation in the given
/// order, or the fixed placeholder when there are none.
pub fn build_rules_context(rules: &Vec<Rule>) -> (r: String)
    ensures
        r@ == context_of(rules_view(rules@)),
{
    let n = rules.len();
    if n == 0 {
        return String::from_str("No specific rules found for context.");
    }
    let ghost rs = rules_view(rules@);
    let mut out = String::new();
    let mut i: usize = 0;
    while i < n
        invariant
            i <= n,
            n == rules@.len(),
            rs == rules_view(rules@),
            out@ == blocks_joined(rs.take(i as int)),
        decreases n - i,
    {
        proof {
            assert(rs.take(i + 1int).drop_last() =~= rs.take(i as int));
            assert(rs.take(i + 1int).last() == rs[i as int]);
        }
        if i > 0 {
            out.append("\n");
        }
        append_block(&mut out, &rules[i]);
        proof {
            if i == 0 {
                assert(out@ =~= blocks_joined(rs.take(1)));
            }
        }
        i = i + 1;
    }
    proof {
        assert(rs.take(n as int) =~= rs);
    }
    out
}

/// The fixed persona and instruction text that precedes the context.
pub open spec fn prompt_prefix() -> Seq<char> {
    (
    "You are a D&D 2024 rules expert. Your role is to provide accurate rulings based on the official 2024 Player's Handbook and Dungeon Master's Guide.\n\nIMPORTANT GUIDELINES:\n1. Only cite rules from D&D 2024 (not 2014 or earlier editions)\n2. When uncertain, clearly state the ambiguity\n3. Distinguish between RAW (Rules as Written) and RAI (Rules as Intended)\n4. If homebrew or DM discretion is needed, say so clearly\n5. Cite specific page numbers when possible\n\nRELEVANT RULES FOR CONTEXT:\n"
    )@
}

/// The fixed closing instruction that follows the context.
pub open spec fn prompt_suffix() -> Seq<char> {
    ("\n\nProvide clear, concise rulings that a DM can use at the table.")@
}

/// The system instruction: persona and guidelines, then the grounding
/// context, then the closing instruction.
pub open spec fn prompt_of(ctx: Seq<char>) -> Seq<char> {
    prompt_prefix() + ctx + prompt_suffix()
}

/// Builds the system instruction around an already-rendered context.
pub fn build_system_prompt(context: &str) -> (r: String)
    ensures
        r@ == prompt_of(context@),
{
    let mut out = String::from_str(
        "You are a D&D 2024 rules expert. Your role is to provide accurate rulings based on the official 2024 Player's Handbook and Dungeon Master's Guide.\n\nIMPORTANT GUIDELINES:\n1. Only cite rules from D&D 2024 (not 2014 or earlier editions)\n2. When uncertain, clearly state the ambiguity\n3. Distinguish between RAW (Rules as Written) and RAI (Rules as Intended)\n4. If homebrew or DM discretion is needed, say so clearly\n5. Cite specific page numbers when possible\n\nRELEVANT RULES FOR CONTEXT:\n",
    );
    out.append(context);
    out.append("\n\nProvide clear, concise rulings that a DM can use at the table.");
    proof {
        assert(out@ =~= prompt_of(context@));
    }
    out
}

/// One request to the external ruling service: the model name, the
/// response-length ceiling, the system instruction, and exactly one
/// user message.
pub struct RulingRequest {
    pub model: String,
    pub max_tokens: u32,
    pub system: String,
    pub user_message: String,
}

/// Assembles the request for a ruling: the grounding context is built
/// from the already-ranked records in their given order, folded into
/// the fixed system instruction; the question stands alone as the one
/// user message; the response-length ceiling is fixed at 1024.
pub fn build_ruling_request(model: &str, question: &str, relevant_rules: &Vec<Rule>) -> (r:
    RulingRequest)
    ensures
        r.model@ == model@,
        r.max_tokens == 1024,
        r.system@ == prompt_of(context_of(rules_view(relevant_rules@))),
        r.user_message@ == question@,
{
    let context = build_rules_context(relevant_rules);
    let system = build_system_prompt(context.as_str());
    RulingRequest {
        model: String::from_str(model),
        max_tokens: 1024,
        system,
        user_message: String::from_str(question),
    }
}

/// A failure of the ruling pipeline. The four variants are
/// distinguishable to the caller and are never retried internally.
#[derive(Debug)]
pub enum RulingError {
    /// The request never completed: a transport failure or timeout.
    RequestError(String),
    /// The service answered with a non-success status; the message
    /// holds the status and the response body for diagnostics.
    ApiError(String),
    /// The response body could not be parsed.
    ParseError(String),
    /// The response parsed but held no content segments.
    EmptyResponse,
}

/// The diagnostic text of each failure.
pub open spec fn error_text(e: RulingError) -> Seq<char> {
    match e {
        RulingError::RequestError(m) => ("Request failed: ")@ + m@,
        RulingError::ApiError(m) => ("API error: ")@ + m@,
        RulingError::ParseError(m) => ("Failed to parse response: ")@ + m@,
        RulingError::EmptyResponse => ("Empty response from ruling service")@,
    }
}

impl RulingError {
    /// The diagnostic text of the failure.
    pub fn message(&self) -> (r: String)
        ensures
            r@ == error_text(*self),
    {
        match self {
            RulingError::RequestError(m) => {
                let mut s = String::from_str("Request failed: ");
                s.append(m.as_str());
                s
            },
            RulingError::ApiError(m) => {
                let mut s = String::from_str("API error: ");
                s.append(m.as_str());
                s
            },
            RulingError::ParseError(m) => {
                let mut s = String::from_str("Failed to parse response: ");
                s.append(m.as_str());
                s
            },
            RulingError::EmptyResponse => String::from_str("Empty response from ruling service"),
        }
    }
}

/// Whether an HTTP status code counts as success.
pub fn status_is_success(code: u16) -> (r: bool)
    ensures
        r == (200 <= code && code < 300),
{
    200 <= code && code < 300
}

/// What came back from one attempt at the external call, as the
/// boundary observed it.
pub enum ApiOutcome {
    /// The request never completed; the transport's own description.
    TransportError(String),
    /// A non-success status: the status line and the response body.
    HttpError(String, String),
    /// The body could not be read as the expected shape; the parser's
    /// own description.
    InvalidBody(String),
    /// The ordered content segments of a well-formed response.
    Content(Vec<String>),
}

/// The ruling of a well-formed response: the first content segment,
/// or the distinct empty-response failure when there is none.
pub fn extract_ruling(segments: &Vec<String>) -> (r: Result<String, RulingError>)
    ensures
        segments@.len() == 0 ==> (r matches Err(e) && e matches RulingError::EmptyResponse),
        segments@.len() > 0 ==> (r matches Ok(s) && s@ == segments@[0]@),
{
    if segments.len() == 0 {
        Err(RulingError::EmptyResponse)
    } else {
        Ok(segments[0].clone())
    }
}

/// Maps every possible outcome of the external call to the ruling or
/// to its distinct failure: transport failures, non-success statuses
/// (status and body kept for diagnostics), unparsable bodies and empty
/// content are each their own error; a response with content yields
/// its first segment.
pub fn interpret_response(outcome: ApiOutcome) -> (r: Result<String, RulingError>)
    ensures
        outcome matches ApiOutcome::TransportError(m) ==> (r matches Err(e) && e matches
            RulingError::RequestError(x) && x@ == m@),
        outcome matches ApiOutcome::HttpError(sl, b) ==> (r matches Err(e) && e matches
            RulingError::ApiError(x) && x@ == sl@ + (": ")@ + b@),
        outcome matches ApiOutcome::InvalidBody(m) ==> (r matches Err(e) && e matches
            RulingError::ParseError(x) && x@ == m@),
        outcome matches ApiOutcome::Content(segs) ==> {
            &&& segs@.len() == 0 ==> (r matches Err(e) && e matches RulingError::EmptyResponse)
            &&& segs@.len() > 0 ==> (r matches Ok(s) && s@ == segs@[0]@)
        },
{
    match outcome {
        ApiOutcome::TransportError(m) => Err(RulingError::RequestError(m)),
        ApiOutcome::HttpError(sl, b) => {
            let mut msg = sl;
            msg.append(": ");
            msg.append(b.as_str());
            Err(RulingError::ApiError(msg))
        },
        ApiOutcome::InvalidBody(m) => Err(RulingError::ParseError(m)),
        ApiOutcome::Content(segs) => extract_ruling(&segs),
    }
}

/// The boundary's degraded text for a ruling result: the ruling
/// itself, or a line naming the failure, as a rendering layer shows it
/// inline instead of crashing.
pub fn degraded_answer(result: Result<String, RulingError>) -> (r: String)
    ensures
        result matches Ok(s) ==> r@ == s@,
        result matches Err(e) ==> r@ == ("Error getting ruling: ")@ + error_text(e),
{
    match result {
        Ok(s) => s,
        Err(e) => {
            let mut out = String::from_str("Error getting ruling: ");
            let m = e.message();
            out.append(m.as_str());
            out
        },
    }
}

/// The boundary's answer when no credential is configured: the call is
/// not attempted.
pub fn missing_key_message() -> (r: String)
    ensures
        r@ == ("Ruling API key not configured. Please set RULING_API_KEY environment variable.")@,
{
    String::from_str("Ruling API key not configured. Please set RULING_API_KEY environment variable.")
}

} // verus!
