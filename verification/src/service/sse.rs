//! Frames of a server-sent event stream.
use crate::service::events::{event_line, event_tree, event_views, EventView};
use crate::service::reindex::{ReindexProgress, ReindexStatus};
use crate::json::compact_text;
use crate::text::{concat, decimal, decimal_text, texts};
use vstd::prelude::*;

verus! {

/// The frame that carries one line.
pub open spec fn frame_spec(line: Seq<char>) -> Seq<char> {
    "data: "@ + line + "\n\n"@
}

/// The frame that carries one line.
pub fn frame(line: &str) -> (s: String)
    ensures
        s@ == frame_spec(line@),
{
    let head = concat("data: ", line);
    concat(head.as_str(), "\n\n")
}

/// The frame that tells a subscriber how many events it missed.
pub fn lag_frame(skipped: u64) -> (s: String)
    ensures
        s@ == frame_spec("{\"type\":\"lag\",\"skipped\":"@ + decimal(skipped as nat) + "}"@),
{
    let head = concat("{\"type\":\"lag\",\"skipped\":", decimal_text(skipped).as_str());
    let line = concat(head.as_str(), "}");
    frame(line.as_str())
}

/// The first frame of the status stream.
pub fn connected_frame() -> (s: String)
    ensures
        s@ == frame_spec("{\"type\":\"connected\"}"@),
{
    frame("{\"type\":\"connected\"}")
}

/// The frame that reports why an event could not be shown.
pub fn error_frame(message: &str) -> (s: String)
    ensures
        s@ == frame_spec("{\"type\":\"error\",\"message\":\""@ + message@ + "\"}"@),
{
    let head = concat("{\"type\":\"error\",\"message\":\"", message);
    let line = concat(head.as_str(), "\"}");
    frame(line.as_str())
}

/// The frames of the remembered events.
pub open spec fn replay_frames(events: Seq<EventView>) -> Seq<Seq<char>> {
    events.map_values(|e: EventView| frame_spec(compact_text(event_tree(e))))
}

/// What a new subscriber of a reindex is shown at once, and whether live events
/// follow: they do as long as the reindex runs.
pub fn stream_start(progress: &ReindexProgress) -> (r: (Vec<String>, bool))
    ensures
        texts(r.0@) == replay_frames(event_views(progress.events@)),
        r.1 == (progress.status == ReindexStatus::Running),
{
    let mut frames: Vec<String> = Vec::new();
    for i in 0..progress.events.len()
        invariant
            frames.len() == i,
            forall|j: int|
                0 <= j < i ==> (#[trigger] frames@[j])@ == frame_spec(
                    compact_text(event_tree(progress.events@[j]@)),
                ),
    {
        frames.push(frame(event_line(&progress.events[i]).as_str()));
    }
    assert(texts(frames@) =~= replay_frames(event_views(progress.events@)));
    let live = match progress.status {
        ReindexStatus::Running => true,
        ReindexStatus::Complete => false,
        ReindexStatus::Failed => false,
    };
    (frames, live)
}

} // verus!
