//! The producer's side of a run: its stages, and the blocks it hands to the
//! display in read order.
use crate::header::{banner, print_header};
use crate::layout::{
    all_graphic, block_shows, format_record, gutter, hard_lines, joined, line_shows, record_ok,
    record_view, render_block, summary_line, wrap_of, RecordError,
};
use crate::quality::is_poor;
use crate::text::decimal;
use vstd::prelude::*;
use vstd::string::StringSliceAdditionalSpecFns;

verus! {

/// Where a run stands.
#[derive(Clone, Copy, Debug, PartialEq, Eq, Structural)]
pub enum Stage {
    /// Nothing is written yet.
    Init,
    /// The banner is in the document.
    HeaderWritten,
    /// Records are being appended.
    Streaming,
    /// The source is exhausted; the display is still open.
    Draining,
    /// Source and display have both finished.
    Done,
    /// The source failed; the run is over.
    Aborted,
}

/// What happens to a run.
#[derive(Clone, Copy, Debug, PartialEq, Eq, Structural)]
pub enum Event {
    /// The banner was appended.
    HeaderAppended,
    /// A record's block was appended.
    RecordAppended,
    /// The source has no more records.
    SourceEnded,
    /// The source failed to decode.
    SourceFailed,
    /// The display was closed.
    DisplayClosed,
}

/// The stage after `e` in stage `s`. A decode failure aborts any unfinished
/// run; an event that does not apply leaves the stage as it is.
pub open spec fn stage_after(s: Stage, e: Event) -> Stage {
    if s == Stage::Done || s == Stage::Aborted {
        s
    } else if e == Event::SourceFailed {
        Stage::Aborted
    } else if s == Stage::Init && e == Event::HeaderAppended {
        Stage::HeaderWritten
    } else if (s == Stage::HeaderWritten || s == Stage::Streaming) && e == Event::RecordAppended {
        Stage::Streaming
    } else if (s == Stage::HeaderWritten || s == Stage::Streaming) && e == Event::SourceEnded {
        Stage::Draining
    } else if s == Stage::Draining && e == Event::DisplayClosed {
        Stage::Done
    } else {
        s
    }
}

/// The stage after `e` in stage `s`.
pub fn next_stage(s: Stage, e: Event) -> (r: Stage)
    ensures
        r == stage_after(s, e),
{
    match (s, e) {
        (Stage::Done, _) => Stage::Done,
        (Stage::Aborted, _) => Stage::Aborted,
        (_, Event::SourceFailed) => Stage::Aborted,
        (Stage::Init, Event::HeaderAppended) => Stage::HeaderWritten,
        (Stage::HeaderWritten, Event::RecordAppended) => Stage::Streaming,
        (Stage::Streaming, Event::RecordAppended) => Stage::Streaming,
        (Stage::HeaderWritten, Event::SourceEnded) => Stage::Draining,
        (Stage::Streaming, Event::SourceEnded) => Stage::Draining,
        (Stage::Draining, Event::DisplayClosed) => Stage::Done,
        _ => s,
    }
}

/// The process's exit code: 1 when the source or the display failed, else 0.
pub fn exit_code(aborted: bool, display_failed: bool) -> (r: i32)
    ensures
        r == (if aborted || display_failed { 1i32 } else { 0i32 }),
{
    if aborted || display_failed { 1 } else { 0 }
}

/// `text` begins with the gutter that holds read index `n`.
pub open spec fn carries_index(text: Seq<char>, n: nat) -> bool {
    let g = gutter(decimal(n));
    text.len() >= g.len() && text.take(g.len() as int) == g
}

/// The producer of a run.
pub struct Run {
    /// The current stage.
    pub stage: Stage,
    /// Records read so far; the last block carries this index.
    pub reads: u64,
    /// Display width in columns, fixed for the run.
    pub width: u16,
    /// The blocks handed out so far, in order.
    pub blocks: Ghost<Seq<Seq<char>>>,
}

impl Run {
    /// The k-th block handed out carries read index k + 1.
    pub open spec fn wf(&self) -> bool {
        &&& self.blocks@.len() == self.reads
        &&& forall|k: int| 0 <= k < self.blocks@.len() ==> carries_index(#[trigger] self.blocks@[k], (k + 1) as nat)
    }

    /// A run that has written nothing, for a display `width` columns wide.
    pub fn new(width: u16) -> (r: Run)
        ensures
            r.wf(),
            r.stage == Stage::Init,
            r.reads == 0,
            r.width == width,
    {
        Run { stage: Stage::Init, reads: 0, width, blocks: Ghost(Seq::empty()) }
    }

    /// Applies `e` to the stage.
    pub fn on_event(&mut self, e: Event)
        requires
            old(self).wf(),
        ensures
            final(self).wf(),
            final(self).stage == stage_after(old(self).stage, e),
            final(self).reads == old(self).reads,
            final(self).width == old(self).width,
            final(self).blocks == old(self).blocks,
    {
        self.stage = next_stage(self.stage, e);
    }

    /// The banner for `title`, to be appended first.
    pub fn start(&mut self, title: &str) -> (r: String)
        requires
            old(self).wf(),
            old(self).stage == Stage::Init,
        ensures
            final(self).wf(),
            r@ == banner(title@, old(self).width as nat),
            final(self).stage == Stage::HeaderWritten,
            final(self).reads == old(self).reads,
            final(self).width == old(self).width,
            final(self).blocks == old(self).blocks,
    {
        let r = print_header(title, self.width);
        self.on_event(Event::HeaderAppended);
        r
    }

    /// Counts the next record and lays it out as text for the document. A
    /// malformed record aborts the run.
    pub fn on_record(&mut self, name: &str, sequence: &str, quality: &str, avg_text: &str) -> (r:
        Result<String, RecordError>)
        requires
            old(self).wf(),
            old(self).stage == Stage::HeaderWritten || old(self).stage == Stage::Streaming,
            old(self).reads < u64::MAX,
        ensures
            final(self).wf(),
            final(self).width == old(self).width,
            r is Ok ==> final(self).reads == old(self).reads + 1,
            r is Err ==> final(self).reads == old(self).reads,
            record_ok(sequence.spec_bytes().len(), quality.spec_bytes().len()) ==> (r matches Ok(text)
                && final(self).stage == Stage::Streaming
                && final(self).blocks@ == old(self).blocks@.push(text@)
                && block_shows(record_view(
                    final(self).reads as nat,
                    name@,
                    sequence.spec_bytes().len(),
                    avg_text@,
                    is_poor(quality.spec_bytes()),
                    wrap_of(sequence@, old(self).width as usize),
                ), text@)),
            record_ok(sequence.spec_bytes().len(), quality.spec_bytes().len()) && old(self).width >= 1
                && all_graphic(sequence@) ==> (r matches Ok(text) && block_shows(
                seq![
                    summary_line(
                        final(self).reads as nat,
                        name@,
                        sequence.spec_bytes().len(),
                        avg_text@,
                        is_poor(quality.spec_bytes()),
                    ),
                ] + hard_lines(sequence@, old(self).width as nat),
                text@,
            )),
            quality.spec_bytes().len() == 0 ==> r == Err::<String, RecordError>(RecordError::EmptyQuality),
            quality.spec_bytes().len() > 0 && quality.spec_bytes().len() != sequence.spec_bytes().len()
                ==> r == Err::<String, RecordError>(RecordError::LengthMismatch),
            r is Err ==> final(self).stage == Stage::Aborted && final(self).blocks == old(self).blocks,
    {
        let next = self.reads + 1;
        match format_record(next, name, sequence, quality, avg_text, self.width as usize) {
            Ok(block) => {
                let text = render_block(&block);
                self.reads = next;
                proof {
                    lemma_shown_block_starts_with_gutter(
                        crate::layout::block_view(block@),
                        text@,
                    );
                    let before = self.blocks@;
                    self.blocks@ = before.push(text@);
                    assert forall|k: int| 0 <= k < self.blocks@.len() implies carries_index(
                        #[trigger] self.blocks@[k],
                        (k + 1) as nat,
                    ) by {
                        if k < before.len() {
                            assert(self.blocks@[k] == before[k]);
                        }
                    }
                }
                self.on_event(Event::RecordAppended);
                Ok(text)
            },
            Err(e) => {
                self.on_event(Event::SourceFailed);
                Err(e)
            },
        }
    }
}

/// Blocks stand in the order the records were read: for positions
/// `i < j` among the blocks a run has handed out, block `i` carries read
/// index `i + 1`, block `j` carries `j + 1`, and `i + 1 < j + 1`.
pub proof fn lemma_blocks_in_read_order(run: Run, i: int, j: int)
    requires
        run.wf(),
        0 <= i < j < run.blocks@.len(),
    ensures
        carries_index(run.blocks@[i], (i + 1) as nat),
        carries_index(run.blocks@[j], (j + 1) as nat),
        i + 1 < j + 1,
{
}

/// The concatenation of texts starts with the first one.
proof fn lemma_joined_starts_with_first(parts: Seq<Seq<char>>)
    requires
        parts.len() > 0,
    ensures
        joined(parts).len() >= parts[0].len(),
        joined(parts).take(parts[0].len() as int) == parts[0],
{
    assert(joined(parts) == parts[0] + joined(parts.drop_first()));
    assert(joined(parts).take(parts[0].len() as int) =~= parts[0]);
}

/// Shown text of a non-empty block starts with its first gutter.
proof fn lemma_shown_block_starts_with_gutter(
    block: Seq<(Seq<char>, Seq<(Seq<char>, crate::layout::Tone)>)>,
    out: Seq<char>,
)
    requires
        block_shows(block, out),
        block.len() > 0,
    ensures
        out.len() >= block[0].0.len(),
        out.take(block[0].0.len() as int) == block[0].0,
{
    let parts = choose|parts: Seq<Seq<char>>|
        parts.len() == block.len()
        && (forall|k: int| 0 <= k < parts.len() ==> line_shows(block[k], #[trigger] parts[k]))
        && out == joined(parts);
    assert(line_shows(block[0], parts[0]));
    let spans = choose|spans: Seq<Seq<char>>|
        spans.len() == block[0].1.len()
        && (forall|k: int| 0 <= k < spans.len() ==> crate::layout::shows(block[0].1[k].0, block[0].1[k].1, #[trigger] spans[k]))
        && parts[0] == block[0].0 + joined(spans) + seq!['\n'];
    lemma_joined_starts_with_first(parts);
    assert(parts[0].take(block[0].0.len() as int) =~= block[0].0);
    assert(out.take(block[0].0.len() as int) =~= parts[0].take(block[0].0.len() as int));
}

} // verus!
