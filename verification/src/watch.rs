//! Waiting for the device to say whether the installation took.

use vstd::prelude::*;
use vstd::utf8::{encode_utf8, is_ascii_chars, valid_utf8};

use crate::error::ApiError;
use crate::text::{
    ascii_lowercase, decode_lossy, is_white_space, law_trimming_keeps_the_rest, lossy_text,
    lowercase, same_text, trim, trimmed, trimmed_start,
};

verus! {

/// The event that carries a text for the output log.
pub const OUTPUT_EVENT: &'static str = "telnet-output";

/// How long the device has to answer, in seconds.
pub const WATCH_SECONDS: u64 = 600;

/// What happens while the device's answer is awaited.
#[derive(Debug)]
pub enum WatchEvent {
    /// Reading up to a line break gave these bytes; none, where the other side has closed.
    Read(Vec<u8>),
    /// Reading failed, for the reason given.
    ReadFailed(String),
    /// The time is up.
    TimedOut,
}

/// What to do about it.
#[derive(Debug)]
pub struct WatchStep {
    /// The text to show in the output log.
    pub show: Option<String>,
    /// How waiting ends; it goes on where this is nothing.
    pub outcome: Option<Result<(), ApiError>>,
}

/// The response that a line carries: its text without blanks at the ends, in lower case.
pub open spec fn response_of(line: Seq<u8>) -> Seq<char> {
    lowercase(trimmed(lossy_text(line)))
}

/// What a response says of the installation: one marks success, one a rollback, and the others
/// nothing.
pub open spec fn verdict_of(response: Seq<char>) -> Option<Result<(), ApiError>> {
    if response == "fb5f2f27be2de104ac2b192f3e874dda"@ {
        Some(Ok(()))
    } else if response == "fff66e9b3d962fa319c8068b5c1997cd"@ {
        Some(Err(ApiError::RollbackDetected))
    } else {
        None
    }
}

/// How waiting ends after an event, if it does.
pub open spec fn outcome_of(event: WatchEvent) -> Option<Result<(), ApiError>> {
    match event {
        WatchEvent::Read(line) => if line@.len() == 0 {
            Some(Err(ApiError::NotConnected))
        } else {
            verdict_of(response_of(line@))
        },
        WatchEvent::ReadFailed(reason) => Some(Err(ApiError::Io(reason))),
        WatchEvent::TimedOut => Some(Err(ApiError::Timeout)),
    }
}

/// What is shown of an event: the response of a line that is not blank.
pub open spec fn shown_of(event: WatchEvent) -> Option<Seq<char>> {
    match event {
        WatchEvent::Read(line) => if line@.len() > 0 && response_of(line@).len() > 0 {
            Some(response_of(line@))
        } else {
            None
        },
        _ => None,
    }
}

/// What a response says of the installation.
pub fn judge_response(response: &str) -> (r: Option<Result<(), ApiError>>)
    ensures
        r == verdict_of(response@),
{
    if same_text(response, "fb5f2f27be2de104ac2b192f3e874dda") {
        Some(Ok(()))
    } else if same_text(response, "fff66e9b3d962fa319c8068b5c1997cd") {
        Some(Err(ApiError::RollbackDetected))
    } else {
        None
    }
}

/// A response with a replacement character says nothing of the installation.
pub proof fn law_replacement_decides_nothing(response: Seq<char>)
    requires
        response.contains('\u{FFFD}'),
    ensures
        verdict_of(response) is None,
{
    reveal_strlit("fb5f2f27be2de104ac2b192f3e874dda");
    reveal_strlit("fff66e9b3d962fa319c8068b5c1997cd");
    let i = choose|i: int| 0 <= i < response.len() && response[i] == '\u{FFFD}';
    assert("fb5f2f27be2de104ac2b192f3e874dda"@ == response ==> response[i]
        == "fb5f2f27be2de104ac2b192f3e874dda"@[i]);
    assert("fff66e9b3d962fa319c8068b5c1997cd"@ == response ==> response[i]
        == "fff66e9b3d962fa319c8068b5c1997cd"@[i]);
}

/// The response that a line carries. It is empty only where the line is blank. A line that is
/// not UTF-8 carries a replacement character, and so says nothing of the installation.
pub fn read_response(line: &[u8]) -> (r: String)
    ensures
        r@ == response_of(line@),
        r@.len() == 0 <==> trimmed(lossy_text(line@)).len() == 0,
        !valid_utf8(line@) ==> r@.contains('\u{FFFD}') && verdict_of(r@) is None,
{
    let text = decode_lossy(line);
    let core = trim(text.as_str());
    let response = core.to_lowercase();
    proof {
        if !valid_utf8(line@) {
            law_trimming_keeps_the_rest(text@, '\u{FFFD}');
            law_replacement_decides_nothing(response@);
        }
    }
    response
}

/// Decides what an event means for the wait. Only blank lines are not shown. A line that is not
/// UTF-8 is shown, with a replacement character, and never ends the wait.
pub fn watch_step(event: WatchEvent) -> (r: WatchStep)
    ensures
        r.outcome == outcome_of(event),
        match r.show {
            Some(text) => shown_of(event) == Some(text@),
            None => shown_of(event) is None,
        },
        event matches WatchEvent::Read(line) ==> (r.show is Some <==> trimmed(
            lossy_text(line@),
        ).len() > 0),
        event matches WatchEvent::Read(line) ==> (!valid_utf8(line@) ==> r.outcome is None && (
        r.show matches Some(text) && text@.contains('\u{FFFD}'))),
{
    match event {
        WatchEvent::Read(line) => {
            if line.len() == 0 {
                return WatchStep { show: None, outcome: Some(Err(ApiError::NotConnected)) };
            }
            let response = read_response(line.as_slice());
            if response.as_str().is_empty() {
                proof {
                    reveal_strlit("fb5f2f27be2de104ac2b192f3e874dda");
                    reveal_strlit("fff66e9b3d962fa319c8068b5c1997cd");
                }
                return WatchStep { show: None, outcome: None };
            }
            let outcome = judge_response(response.as_str());
            WatchStep { show: Some(response), outcome }
        },
        WatchEvent::ReadFailed(reason) => WatchStep {
            show: None,
            outcome: Some(Err(ApiError::Io(reason))),
        },
        WatchEvent::TimedOut => WatchStep { show: None, outcome: Some(Err(ApiError::Timeout)) },
    }
}

/// What is told when the output log is opened.
pub open spec fn monitor_texts() -> Seq<Seq<char>> {
    seq![
        "🚀 Monitor de telnet iniciado"@,
        "📡 Conectado ao sistema telnet"@,
        "⚡ Aguardando comandos e respostas..."@,
    ]
}

/// What is told when the output log is opened.
pub fn monitor_messages() -> (r: Vec<String>)
    ensures
        r@.map_values(|s: String| s@) == monitor_texts(),
{
    let mut r: Vec<String> = Vec::new();
    r.push("🚀 Monitor de telnet iniciado".to_owned());
    r.push("📡 Conectado ao sistema telnet".to_owned());
    r.push("⚡ Aguardando comandos e respostas...".to_owned());
    assert(r@.map_values(|s: String| s@) =~= monitor_texts());
    r
}

/// How waiting ends over a sequence of events, if it does.
pub open spec fn watch_result(events: Seq<WatchEvent>) -> Option<Result<(), ApiError>>
    decreases events.len(),
{
    if events.len() == 0 {
        None
    } else if outcome_of(events.first()) is Some {
        outcome_of(events.first())
    } else {
        watch_result(events.drop_first())
    }
}

/// The first event that settles the matter decides, whatever comes after it; until then the wait
/// goes on.
pub proof fn law_first_decisive_event_counts(events: Seq<WatchEvent>, at: int)
    requires
        0 <= at <= events.len(),
        forall|j: int| 0 <= j < at ==> outcome_of(#[trigger] events[j]) is None,
        at < events.len() ==> outcome_of(events[at]) is Some,
    ensures
        at < events.len() ==> watch_result(events) == outcome_of(events[at]),
        at == events.len() ==> watch_result(events) is None,
    decreases events.len(),
{
    if at > 0 {
        let rest = events.drop_first();
        assert(outcome_of(events[0]) is None);
        assert forall|j: int| 0 <= j < at - 1 implies outcome_of(#[trigger] rest[j]) is None by {
            assert(rest[j] == events[j + 1]);
        }
        law_first_decisive_event_counts(rest, at - 1);
    }
}

/// What is shown of an event, as a list of at most one text.
pub open spec fn shown_list(event: WatchEvent) -> Seq<Seq<char>> {
    match shown_of(event) {
        Some(text) => seq![text],
        None => Seq::empty(),
    }
}

/// What there is to show of some events, one after the other.
pub open spec fn shown_texts(events: Seq<WatchEvent>) -> Seq<Seq<char>>
    decreases events.len(),
{
    if events.len() == 0 {
        Seq::empty()
    } else {
        shown_list(events.first()) + shown_texts(events.drop_first())
    }
}

/// What is shown over a wait, up to and with the first event that settles the matter.
pub open spec fn watch_shown(events: Seq<WatchEvent>) -> Seq<Seq<char>>
    decreases events.len(),
{
    if events.len() == 0 {
        Seq::empty()
    } else if outcome_of(events.first()) is Some {
        shown_list(events.first())
    } else {
        shown_list(events.first()) + watch_shown(events.drop_first())
    }
}

/// Every line up to the deciding event is shown, in order, and nothing after it. Where a line
/// decides, that line is shown, last.
pub proof fn law_nothing_is_shown_after_the_decision(events: Seq<WatchEvent>, at: int)
    requires
        0 <= at <= events.len(),
        forall|j: int| 0 <= j < at ==> outcome_of(#[trigger] events[j]) is None,
        at < events.len() ==> outcome_of(events[at]) is Some,
    ensures
        at == events.len() ==> watch_shown(events) == shown_texts(events),
        at < events.len() ==> {
            &&& watch_shown(events) == shown_texts(events.take(at)) + shown_list(events[at])
            &&& events[at] matches WatchEvent::Read(line) ==> line@.len() > 0 ==> {
                &&& shown_list(events[at]) == seq![response_of(line@)]
                &&& watch_shown(events).last() == response_of(line@)
            }
        },
    decreases events.len(),
{
    if at < events.len() {
        reveal_strlit("fb5f2f27be2de104ac2b192f3e874dda");
        reveal_strlit("fff66e9b3d962fa319c8068b5c1997cd");
    }
    if at == 0 {
        if events.len() > 0 {
            assert(events.take(0) =~= Seq::empty());
            assert(watch_shown(events) =~= shown_texts(events.take(0)) + shown_list(events[0]));
        }
    } else {
        let rest = events.drop_first();
        assert(outcome_of(events[0]) is None);
        assert forall|j: int| 0 <= j < at - 1 implies outcome_of(#[trigger] rest[j]) is None by {
            assert(rest[j] == events[j + 1]);
        }
        law_nothing_is_shown_after_the_decision(rest, at - 1);
        if at < events.len() {
            assert(events.take(at).drop_first() =~= rest.take(at - 1));
            assert(events.take(at).first() == events.first());
            assert(watch_shown(events) =~= shown_texts(events.take(at)) + shown_list(events[at]));
        }
    }
}

/// Whether a text is all white space.
pub open spec fn is_blank(s: Seq<char>) -> bool {
    forall|i: int| 0 <= i < s.len() ==> is_white_space(#[trigger] s[i])
}

/// Blanks around a text that neither begins nor ends with one are trimmed.
pub proof fn lemma_trim_blanks(before: Seq<char>, core: Seq<char>, after: Seq<char>)
    requires
        is_blank(before),
        is_blank(after),
        core.len() > 0,
        !is_white_space(core.first()),
        !is_white_space(core.last()),
    ensures
        trimmed(before + core + after) == core,
    decreases before.len() + after.len(),
{
    let all = before + core + after;
    if before.len() > 0 {
        let rest = before.drop_first();
        assert(is_white_space(before[0]) && all.first() == before[0]);
        assert(all.drop_first() =~= rest + core + after);
        assert(is_blank(rest)) by {
            assert forall|i: int| 0 <= i < rest.len() implies is_white_space(
                #[trigger] rest[i],
            ) by {
                assert(rest[i] == before[i + 1]);
            }
        }
        lemma_trim_blanks(rest, core, after);
    } else {
        assert(all =~= core + after);
        assert(all.first() == core.first());
        assert(trimmed_start(all) == all);
        if after.len() > 0 {
            let rest = after.drop_last();
            assert(is_white_space(after[after.len() - 1]) && all.last() == after.last());
            assert(all.drop_last() =~= before + core + rest);
            assert(is_blank(rest));
            lemma_trim_blanks(before, core, rest);
            let shorter = before + core + rest;
            assert(shorter.first() == core.first());
            assert(trimmed_start(shorter) == shorter);
        } else {
            assert(all =~= core);
        }
    }
}

/// A line that carries a text, whatever blanks stand around it (a carriage return and a line
/// break, say) and whatever the case of its letters, is read as that text in lower case.
pub proof fn law_response_ignores_case_and_blanks(
    before: Seq<char>,
    core: Seq<char>,
    after: Seq<char>,
)
    requires
        is_blank(before),
        is_blank(after),
        core.len() > 0,
        is_ascii_chars(core),
        !is_white_space(core.first()),
        !is_white_space(core.last()),
    ensures
        response_of(encode_utf8(before + core + after)) == ascii_lowercase(core),
{
    let all = before + core + after;
    vstd::utf8::encode_utf8_valid_utf8(all);
    vstd::utf8::encode_utf8_decode_utf8(all);
    lemma_trim_blanks(before, core, after);
}

/// The device's two answers are recognised with any blanks around them.
pub proof fn law_markers_are_recognised(before: Seq<char>, after: Seq<char>)
    requires
        is_blank(before),
        is_blank(after),
    ensures
        verdict_of(
            response_of(encode_utf8(before + "fb5f2f27be2de104ac2b192f3e874dda"@ + after)),
        ) == Some(Ok::<(), ApiError>(())),
        verdict_of(
            response_of(encode_utf8(before + "fff66e9b3d962fa319c8068b5c1997cd"@ + after)),
        ) == Some(Err::<(), ApiError>(ApiError::RollbackDetected)),
{
    reveal_strlit("fb5f2f27be2de104ac2b192f3e874dda");
    reveal_strlit("fff66e9b3d962fa319c8068b5c1997cd");
    let good = "fb5f2f27be2de104ac2b192f3e874dda"@;
    let bad = "fff66e9b3d962fa319c8068b5c1997cd"@;
    law_response_ignores_case_and_blanks(before, good, after);
    law_response_ignores_case_and_blanks(before, bad, after);
    assert(ascii_lowercase(good) =~= good);
    assert(ascii_lowercase(bad) =~= bad);
    assert(good[1] != bad[1]);
}

} // verus!
