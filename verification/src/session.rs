//! An editing session: one document, its log and its markup detector, driven
//! by one event at a time.
//!
//! Every event is taken to its end before the next: the detector is consulted,
//! what it emits is carried out on the document, and all of it is appended to
//! the log. The log therefore always replays, from the empty document, to the
//! document the session holds.
//!
//! The detector goes by the text it is shown, and the text moves under it.
//! The session keeps the two together. It drops a candidate run as soon as
//! text enters or leaves at or before its opening markers; it takes back the
//! validation of a double run as soon as anything but the closing marker
//! follows the marker that validated it; and it shows the detector the text
//! between the opening markers and the closing ones, read from the document.
//! A run that completes thus always stands between marker characters, and
//! only those are removed.

use vstd::prelude::*;
use vstd::string::StrSliceExecFns;
use crate::document::{DocModel, Document, SpanModel, names_view};
use crate::oplog::OperationLog;
use crate::replay::{
    InvariantViolation, admissible, apply, apply_model, hydrate, lemma_apply_keeps,
    lemma_replay_concat, lemma_replay_keeps, lemma_replay_push, replay_model,
};
use crate::markup::{lemma_commit_double, lemma_commit_single};
use crate::tags::{BoldItalicTagState, Outcome, is_marker, lemma_emitted_shape, tight};
use crate::text_ops::{
    DeleteTextEventData, InsertOpsData, InsertTextEventData, OpModel, Ops, ops_view,
};

verus! {

/// What typing `content` at `offset` logs before the detector is asked: a
/// cursor move where the cursor is elsewhere, then the insertion, which
/// carries the document's current tag.
pub open spec fn typing_ops(doc: DocModel, offset: i32, content: Seq<char>) -> Seq<OpModel> {
    let insertion = seq![OpModel::Insert { content, tag: doc.current_tag }];
    if doc.place(offset as int) != doc.cursor {
        seq![OpModel::MoveCursor { position: offset }] + insertion
    } else {
        insertion
    }
}

/// The document once `content` has been typed at `offset`: the text has
/// entered at the place that `offset` stands for, the cursor stands behind
/// it, and the newest span lays the current tag over it.
pub open spec fn typed_doc(doc: DocModel, offset: i32, content: Seq<char>) -> DocModel {
    doc.place_cursor(offset as int).insert_at_cursor(content, doc.current_tag)
}

/// The first of three names that the registry does not hold.
pub open spec fn first_unknown(
    registry: Seq<Seq<char>>,
    current_tag: Seq<char>,
    single_tag: Seq<char>,
    double_tag: Seq<char>,
) -> Option<Seq<char>> {
    if !registry.contains(current_tag) {
        Some(current_tag)
    } else if !registry.contains(single_tag) {
        Some(single_tag)
    } else if !registry.contains(double_tag) {
        Some(double_tag)
    } else {
        None
    }
}

/// The place of the last opening marker of the candidate run.
pub open spec fn guard(detector: BoldItalicTagState) -> int {
    if detector.double_asterisk_active {
        detector.start_offset + 1
    } else {
        detector.start_offset as int
    }
}

/// The detector's candidate stands in the document: its opening markers are
/// where the detector has them, and a validated run ends, tight, at the
/// marker before the cursor.
pub open spec fn anchored(detector: BoldItalicTagState, doc: DocModel) -> bool {
    let start = detector.start_offset as int;
    &&& detector.double_asterisk_active ==> detector.single_asterisk_active
    &&& detector.single_asterisk_complete ==> detector.double_asterisk_active
    &&& detector.single_asterisk_active ==> 0 <= start < doc.text.len() && is_marker(
        doc.text[start],
    )
    &&& detector.double_asterisk_active ==> start + 1 < doc.text.len() && is_marker(
        doc.text[start + 1],
    )
    &&& detector.single_asterisk_complete ==> start + 3 < doc.cursor <= doc.text.len()
        && is_marker(doc.text[doc.cursor - 1]) && tight(
        doc.text.subrange(start + 2, doc.cursor - 1),
    )
}

/// The detector as an edit at `at` leaves it: a candidate with an opening
/// marker at or behind `at` is dropped.
pub open spec fn survivor(detector: BoldItalicTagState, at: int) -> BoldItalicTagState {
    if !(detector.phase() is Idle) && at <= guard(detector) {
        detector.cleared()
    } else {
        detector
    }
}

/// The detector with the validation of its run taken back.
pub open spec fn unvalidated(detector: BoldItalicTagState) -> BoldItalicTagState {
    BoldItalicTagState { single_asterisk_complete: false, ..detector }
}

/// Whether `content` typed at place `at` is a marker that follows the last
/// typed character at once.
pub open spec fn closes(doc: DocModel, at: int, content: Seq<char>) -> bool {
    at == doc.cursor && content.len() == 1 && is_marker(content[0])
}

/// The detector as `content`, about to enter at place `at`, finds it: a
/// candidate that the insertion would part from its opening markers is
/// dropped, and validation lasts only for a closing marker.
pub open spec fn ready(
    detector: BoldItalicTagState,
    doc: DocModel,
    at: int,
    content: Seq<char>,
) -> BoldItalicTagState {
    if closes(doc, at, content) {
        survivor(detector, at)
    } else {
        unvalidated(survivor(detector, at))
    }
}

/// The text that the detector is shown for a character typed at place `at`:
/// what stands between the opening markers and that place or, for a
/// validated run, the closing marker before it.
pub open spec fn run_shown(detector: BoldItalicTagState, text: Seq<char>, at: int) -> Seq<char> {
    let first = guard(detector) + 1;
    let last = if detector.single_asterisk_complete {
        at - 1
    } else {
        at
    };
    if !(detector.phase() is Idle) && 0 <= detector.start_offset && first <= last <= text.len() {
        text.subrange(first, last)
    } else {
        Seq::empty()
    }
}

/// The offset that stands for place `at` in what the detector is shown and in
/// what it emits. No operation carries an offset beyond the largest `i32`.
pub open spec fn carried(at: int) -> i32 {
    if at > i32::MAX {
        i32::MAX
    } else {
        at as i32
    }
}

/// What the detector makes of `content` typed at place `at` of `doc`, where
/// `detector` is the detector that the insertion finds. Beyond the largest
/// offset that an operation can carry, nothing is detected.
pub open spec fn verdict(
    detector: BoldItalicTagState,
    doc: DocModel,
    at: int,
    content: Seq<char>,
) -> Outcome {
    if at > i32::MAX {
        Outcome::Stay
    } else {
        detector.on_char(run_shown(detector, doc.text, at), content)
    }
}

/// `after` is `before` with a run emphasised: the `width` characters from
/// `start` on and the `width` characters up to `last` are markers and are
/// gone, every other character is in its place, and the newest span lays
/// `tag` over what stood between the markers.
pub open spec fn emphasised(
    before: DocModel,
    after: DocModel,
    tag: Seq<char>,
    start: int,
    width: int,
    last: int,
) -> bool {
    &&& 0 <= start
    &&& start + 2 * width <= last + 1 <= before.text.len()
    &&& forall|i: int| start <= i < start + width ==> is_marker(#[trigger] before.text[i])
    &&& forall|i: int| last - width < i <= last ==> is_marker(#[trigger] before.text[i])
    &&& after.text == before.text.take(start) + before.text.subrange(
        start + width,
        last + 1 - width,
    ) + before.text.skip(last + 1)
    &&& after.spans.len() == before.spans.len() + 1
    &&& after.spans.last() == SpanModel { tag, start, end: last + 1 - 2 * width }
}

/// Calls `String::push`, which appends one character to the end of a string.
#[verifier::external_body]
fn push_char(text: &mut String, c: char)
    ensures
        final(text)@ == old(text)@.push(c),
{
    text.push(c);
}

/// A document being edited.
pub struct Session {
    doc: Document,
    log: OperationLog,
    detector: BoldItalicTagState,
    initial_tag: String,
}

impl Session {
    /// The document as it stands.
    pub closed spec fn document_model(&self) -> DocModel {
        self.doc@
    }

    /// The log as it stands.
    pub closed spec fn log_model(&self) -> Seq<OpModel> {
        self.log@
    }

    /// The detector as it stands.
    pub closed spec fn detector_model(&self) -> BoldItalicTagState {
        self.detector
    }

    /// The tag that was in force when the session began.
    pub closed spec fn initial_tag_model(&self) -> Seq<char> {
        self.initial_tag@
    }

    /// The empty document from which the session began.
    pub open spec fn origin(&self) -> DocModel {
        DocModel::blank(self.document_model().registry, self.initial_tag_model())
    }

    /// The log replays to the document, and the three tags the session may
    /// apply on its own exist.
    pub open spec fn synced(&self) -> bool {
        let doc = self.document_model();
        &&& doc.wf()
        &&& doc == replay_model(self.origin(), self.log_model())
        &&& doc.knows(doc.current_tag)
        &&& doc.knows(self.detector_model().single_asterisk_tag_name@)
        &&& doc.knows(self.detector_model().double_asterisk_tag_name@)
    }

    /// What holds of a session between events: document and log are in
    /// step, and a candidate run is anchored.
    pub open spec fn wf(&self) -> bool {
        self.synced() && anchored(self.detector_model(), self.document_model())
    }

    /// A session on an empty document.
    ///
    /// The tags named in `registry` exist; `current_tag` is in force;
    /// `single_tag` answers `*word*` and `double_tag` answers `**word**`.
    /// The three must exist: the first that does not is reported.
    pub fn new(
        registry: Vec<String>,
        current_tag: String,
        single_tag: String,
        double_tag: String,
    ) -> (outcome: Result<Session, InvariantViolation>)
        ensures
            match outcome {
                Ok(session) => {
                    &&& first_unknown(
                        names_view(registry@),
                        current_tag@,
                        single_tag@,
                        double_tag@,
                    ) is None
                    &&& session.wf()
                    &&& session.document_model() == DocModel::blank(
                        names_view(registry@),
                        current_tag@,
                    )
                    &&& session.log_model() == Seq::<OpModel>::empty()
                    &&& session.initial_tag_model() == current_tag@
                    &&& session.detector_model().phase() is Idle
                    &&& session.detector_model().single_asterisk_tag_name@ == single_tag@
                    &&& session.detector_model().double_asterisk_tag_name@ == double_tag@
                },
                Err(violation) => violation.position == 0 && first_unknown(
                    names_view(registry@),
                    current_tag@,
                    single_tag@,
                    double_tag@,
                ) == Some(violation.tag@),
            },
    {
        let initial_tag = current_tag.clone();
        let doc = Document::new(registry, current_tag);
        if !doc.lookup_tag(&initial_tag) {
            return Err(InvariantViolation { position: 0, tag: initial_tag });
        }
        if !doc.lookup_tag(&single_tag) {
            return Err(InvariantViolation { position: 0, tag: single_tag });
        }
        if !doc.lookup_tag(&double_tag) {
            return Err(InvariantViolation { position: 0, tag: double_tag });
        }
        Ok(
            Session {
                doc,
                log: OperationLog::new(),
                detector: BoldItalicTagState::new(single_tag, double_tag),
                initial_tag,
            },
        )
    }

    /// The document.
    pub fn document(&self) -> (doc: &Document)
        ensures
            doc@ == self.document_model(),
    {
        &self.doc
    }

    /// The log.
    pub fn log(&self) -> (log: &OperationLog)
        ensures
            log@ == self.log_model(),
    {
        &self.log
    }

    /// The detector.
    pub fn detector(&self) -> (detector: &BoldItalicTagState)
        ensures
            *detector == self.detector_model(),
    {
        &self.detector
    }

    /// Carries out `op` and logs it. Only what was carried out is logged.
    fn record(&mut self, op: Ops)
        requires
            old(self).synced(),
            admissible(old(self).document_model(), op@),
        ensures
            final(self).synced(),
            final(self).document_model() == apply_model(old(self).document_model(), op@),
            final(self).log_model() == old(self).log_model().push(op@),
            final(self).detector_model() == old(self).detector_model(),
            final(self).initial_tag_model() == old(self).initial_tag_model(),
    {
        proof {
            lemma_apply_keeps(self.doc@, op@);
            lemma_replay_push(self.origin(), self.log@, op@);
        }
        if apply(&op, &mut self.doc).is_ok() {
            self.log.append(op);
        }
    }

    /// The user picks the tag for the text typed from now on.
    ///
    /// A name that does not exist is refused, and nothing changes.
    pub fn select_color(&mut self, tag: String) -> (outcome: Result<(), InvariantViolation>)
        requires
            old(self).wf(),
        ensures
            final(self).wf(),
            final(self).detector_model() == old(self).detector_model(),
            final(self).initial_tag_model() == old(self).initial_tag_model(),
            match outcome {
                Ok(_) => {
                    &&& old(self).document_model().knows(tag@)
                    &&& final(self).document_model() == old(self).document_model().select_tag(
                        tag@,
                    )
                    &&& final(self).log_model() == old(self).log_model().push(
                        OpModel::SelectColorTag { tag: tag@ },
                    )
                },
                Err(violation) => {
                    &&& !old(self).document_model().knows(tag@)
                    &&& final(self).document_model() == old(self).document_model()
                    &&& final(self).log_model() == old(self).log_model()
                    &&& violation.position == 0
                    &&& violation.tag@ == tag@
                },
            },
    {
        if !self.doc.lookup_tag(&tag) {
            return Err(InvariantViolation { position: 0, tag });
        }
        self.record(Ops::SelectColorTag(tag));
        Ok(())
    }

    /// Drops a candidate run with an opening marker at or behind `at`.
    fn disarm_from(&mut self, at: usize)
        ensures
            final(self).detector_model() == survivor(old(self).detector_model(), at as int),
            final(self).document_model() == old(self).document_model(),
            final(self).log_model() == old(self).log_model(),
            final(self).initial_tag_model() == old(self).initial_tag_model(),
    {
        let active = self.detector.single_asterisk_active || self.detector.double_asterisk_active;
        let guard: i64 = if self.detector.double_asterisk_active {
            self.detector.start_offset as i64 + 1
        } else {
            self.detector.start_offset as i64
        };
        if active && guard >= 0 && at as u64 <= guard as u64 {
            self.detector.reset_state();
        }
    }

    /// Takes back the validation of the candidate run.
    fn unvalidate(&mut self)
        ensures
            final(self).detector_model() == unvalidated(old(self).detector_model()),
            final(self).document_model() == old(self).document_model(),
            final(self).log_model() == old(self).log_model(),
            final(self).initial_tag_model() == old(self).initial_tag_model(),
    {
        self.detector.single_asterisk_complete = false;
    }

    /// The text widget reports that a range has left the buffer.
    ///
    /// The deletion is carried out and logged. Where characters leave at or
    /// before an opening marker of a candidate run, the candidate is dropped;
    /// where they leave behind it, a validated run is validated no more.
    pub fn delete_text(&mut self, event: DeleteTextEventData)
        requires
            old(self).wf(),
        ensures
            final(self).wf(),
            final(self).initial_tag_model() == old(self).initial_tag_model(),
            final(self).document_model() == old(self).document_model().delete(
                event.start_offset as int,
                event.end_offset as int,
            ),
            final(self).log_model() == old(self).log_model().push(
                OpModel::Delete { start: event.start_offset, end: event.end_offset },
            ),
            ({
                let doc = old(self).document_model();
                let low = doc.low(event.start_offset as int, event.end_offset as int);
                let high = doc.high(event.start_offset as int, event.end_offset as int);
                final(self).detector_model() == if low < high {
                    unvalidated(survivor(old(self).detector_model(), low))
                } else {
                    old(self).detector_model()
                }
            }),
    {
        let first = self.doc.place(event.start_offset);
        let second = self.doc.place(event.end_offset);
        if first < second {
            self.disarm_from(first);
            self.unvalidate();
        } else if second < first {
            self.disarm_from(second);
            self.unvalidate();
        }
        proof {
            lemma_delete_keeps_anchor(
                old(self).detector,
                self.doc@,
                event.start_offset as int,
                event.end_offset as int,
            );
        }
        self.record(Ops::Delete((event.start_offset, event.end_offset)));
    }

    /// The text that the detector is shown for a character typed at `at`.
    fn run_before(&self, at: usize) -> (run: String)
        ensures
            run@ == run_shown(self.detector_model(), self.document_model().text, at as int),
    {
        let mut run = String::new();
        let text = self.doc.text();
        let start: i32 = self.detector.start_offset;
        let active = self.detector.single_asterisk_active || self.detector.double_asterisk_active;
        if !active || start < 0 {
            return run;
        }
        let first: usize = if self.detector.double_asterisk_active {
            start as usize + 2
        } else {
            start as usize + 1
        };
        if self.detector.single_asterisk_complete && at == 0 {
            return run;
        }
        let last: usize = if self.detector.single_asterisk_complete {
            at - 1
        } else {
            at
        };
        if first > last || last > text.len() {
            return run;
        }
        let mut i: usize = first;
        while i < last
            invariant
                first <= i <= last <= text@.len(),
                run@ == text@.subrange(first as int, i as int),
            decreases last - i,
        {
            push_char(&mut run, text[i]);
            assert(text@.subrange(first as int, i + 1) =~= text@.subrange(
                first as int,
                i as int,
            ).push(text@[i as int]));
            i += 1;
        }
        run
    }

    /// Moves the cursor where it has to, inserts `content` with the current
    /// tag, and logs both.
    fn record_typing(&mut self, offset: i32, content: String)
        requires
            old(self).synced(),
        ensures
            final(self).synced(),
            final(self).detector_model() == old(self).detector_model(),
            final(self).initial_tag_model() == old(self).initial_tag_model(),
            final(self).log_model() == old(self).log_model() + typing_ops(
                old(self).document_model(),
                offset,
                content@,
            ),
            final(self).document_model() == typed_doc(old(self).document_model(), offset, content@),
    {
        let ghost doc = self.doc@;
        let ghost log = self.log@;
        let ghost typed = typing_ops(doc, offset, content@);
        if self.doc.place(offset) != self.doc.cursor() {
            self.record(Ops::MoveCursor(offset));
        }
        let tag = self.doc.current_tag().clone();
        self.record(Ops::Insert(InsertOpsData::new(content, tag)));
        proof {
            lemma_typed_doc(doc, offset, content@);
            if typed.len() == 2 {
                assert(log.push(typed[0]).push(typed[1]) =~= log + typed);
            } else {
                assert(log.push(typed[0]) =~= log + typed);
            }
        }
    }

    /// Shows the detector the text typed at `seen` and the run before it.
    fn consult(&mut self, seen: i32, run: String, typed: String) -> (emitted: Vec<Ops>)
        requires
            old(self).synced(),
            old(self).detector_model().in_range(
                old(self).detector_model().on_char(run@, typed@),
                seen,
            ),
        ensures
            final(self).synced(),
            final(self).document_model() == old(self).document_model(),
            final(self).log_model() == old(self).log_model(),
            final(self).initial_tag_model() == old(self).initial_tag_model(),
            final(self).detector_model() == old(self).detector_model().after(
                old(self).detector_model().on_char(run@, typed@),
                seen,
            ),
            ops_view(emitted@) == old(self).detector_model().emitted(
                old(self).detector_model().on_char(run@, typed@),
                seen,
            ),
    {
        let (_, emitted) = self.detector.update_state(seen, run, typed);
        emitted
    }

    /// Carries out and logs what the detector emitted.
    fn carry_out(&mut self, emitted: &Vec<Ops>)
        requires
            old(self).synced(),
            forall|i: int|
                0 <= i < emitted.len() ==> match (#[trigger] emitted@[i])@ {
                    OpModel::Delete { .. } => true,
                    OpModel::ApplyTag { tag, .. } => old(self).document_model().knows(tag),
                    _ => false,
                },
        ensures
            final(self).synced(),
            final(self).detector_model() == old(self).detector_model(),
            final(self).initial_tag_model() == old(self).initial_tag_model(),
            final(self).document_model() == replay_model(
                old(self).document_model(),
                ops_view(emitted@),
            ),
            final(self).log_model() == old(self).log_model() + ops_view(emitted@),
            final(self).document_model().current_tag == old(self).document_model().current_tag,
    {
        let ghost doc = self.doc@;
        let ghost log = self.log@;
        let ghost ops = ops_view(emitted@);
        let mut i: usize = 0;
        proof {
            assert(ops.take(0) =~= Seq::<OpModel>::empty());
            assert(log + ops.take(0) =~= log);
        }
        while i < emitted.len()
            invariant
                i <= emitted.len(),
                ops == ops_view(emitted@),
                self.synced(),
                self.detector == old(self).detector,
                forall|j: int|
                    0 <= j < emitted.len() ==> match (#[trigger] emitted@[j])@ {
                        OpModel::Delete { .. } => true,
                        OpModel::ApplyTag { tag, .. } => doc.knows(tag),
                        _ => false,
                    },
                self.doc@.registry == doc.registry,
                self.doc@.current_tag == doc.current_tag,
                self.doc@ == replay_model(doc, ops.take(i as int)),
                self.log@ == log + ops.take(i as int),
                self.initial_tag@ == old(self).initial_tag@,
            decreases emitted.len() - i,
        {
            let ghost op = ops[i as int];
            assert(op == emitted@[i as int]@);
            proof {
                lemma_replay_push(doc, ops.take(i as int), op);
                assert(ops.take(i + 1) =~= ops.take(i as int).push(op));
                assert((log + ops.take(i as int)).push(op) =~= log + ops.take(i + 1));
            }
            self.record(emitted[i].duplicate());
            i += 1;
        }
        assert(ops.take(i as int) =~= ops);
    }

    /// The text widget reports that `event.content` has entered the buffer
    /// at `event.offset`.
    ///
    /// A candidate run is dropped where the text enters at or before one of
    /// its opening markers, and a validated run is validated no more unless
    /// the text is a marker typed right behind the last typed character. The
    /// insertion is logged with the current tag, after a cursor move where
    /// the cursor stood elsewhere. The detector then sees the typed text and
    /// the run before it; what it emits is carried out, logged behind the
    /// insertion, and returned. Where that completes a run, the markers
    /// around it are gone and the run is tagged. The current tag stays as it
    /// is.
    pub fn insert_text(&mut self, event: InsertTextEventData) -> (emitted: Vec<Ops>)
        requires
            old(self).wf(),
        ensures
            final(self).wf(),
            final(self).initial_tag_model() == old(self).initial_tag_model(),
            ({
                let doc = old(self).document_model();
                let at = doc.place(event.offset as int);
                let detector = ready(old(self).detector_model(), doc, at, event.content@);
                let outcome = verdict(detector, doc, at, event.content@);
                let typed = typing_ops(doc, event.offset, event.content@);
                let middle = typed_doc(doc, event.offset, event.content@);
                let after = final(self).document_model();
                &&& ops_view(emitted@) == detector.emitted(outcome, carried(at))
                &&& final(self).detector_model() == if at > i32::MAX {
                    detector.cleared()
                } else {
                    detector.after(outcome, carried(at))
                }
                &&& final(self).log_model() == old(self).log_model() + typed + ops_view(emitted@)
                &&& after == replay_model(doc, typed + ops_view(emitted@))
                &&& after == replay_model(middle, ops_view(emitted@))
                &&& after.current_tag == doc.current_tag
                &&& outcome is CommitSingle ==> emphasised(
                    middle,
                    after,
                    detector.single_asterisk_tag_name@,
                    detector.start_offset as int,
                    1,
                    at,
                )
                &&& outcome is CommitDouble ==> emphasised(
                    middle,
                    after,
                    detector.double_asterisk_tag_name@,
                    detector.start_offset as int,
                    2,
                    at,
                )
            }),
    {
        let ghost doc = self.doc@;
        let ghost content = event.content@;
        let ghost typed = typing_ops(doc, event.offset, content);
        let at: usize = self.doc.place(event.offset);
        let text = event.content.as_str();
        let closing = at == self.doc.cursor() && text.unicode_len() == 1 && text.get_char(0) == '*';
        self.disarm_from(at);
        if !closing {
            self.unvalidate();
        }
        let ghost before = self.detector;
        assert(before == ready(old(self).detector, doc, at as int, content));
        proof {
            lemma_typed_doc(doc, event.offset, content);
        }
        if at > 0x7fff_ffff {
            self.detector.reset_state();
            self.record_typing(event.offset, event.content);
            let emitted: Vec<Ops> = Vec::new();
            proof {
                assert(ops_view(emitted@) =~= Seq::<OpModel>::empty());
                assert(typed + ops_view(emitted@) =~= typed);
                assert(old(self).log@ + typed + ops_view(emitted@) =~= old(self).log@ + typed);
            }
            return emitted;
        }
        let seen: i32 = at as i32;
        let run = self.run_before(at);
        let typed_text = event.content.clone();
        let ghost outcome = before.on_char(run@, content);
        proof {
            lemma_marker_step(doc, before, event.offset, content);
            lemma_emitted_shape(before, outcome, seen);
        }
        self.record_typing(event.offset, event.content);
        let emitted = self.consult(seen, run, typed_text);
        self.carry_out(&emitted);
        proof {
            lemma_replay_concat(doc, typed, ops_view(emitted@));
        }
        emitted
    }

    /// A session on the document that `log` replays to.
    ///
    /// Fails like [`Session::new`] where one of the three tags does not
    /// exist, and otherwise at the first operation of `log` that names a tag
    /// that does not exist. On failure there is no session: a log is replayed
    /// whole or not at all.
    pub fn hydrate(
        registry: Vec<String>,
        current_tag: String,
        single_tag: String,
        double_tag: String,
        log: OperationLog,
    ) -> (outcome: Result<Session, InvariantViolation>)
        ensures
            match outcome {
                Ok(session) => {
                    &&& first_unknown(
                        names_view(registry@),
                        current_tag@,
                        single_tag@,
                        double_tag@,
                    ) is None
                    &&& forall|i: int|
                        0 <= i < log@.len() ==> admissible(session.origin(), #[trigger] log@[i])
                    &&& session.wf()
                    &&& session.origin() == DocModel::blank(names_view(registry@), current_tag@)
                    &&& session.log_model() == log@
                    &&& session.document_model() == replay_model(session.origin(), log@)
                    &&& session.detector_model().phase() is Idle
                    &&& session.detector_model().single_asterisk_tag_name@ == single_tag@
                    &&& session.detector_model().double_asterisk_tag_name@ == double_tag@
                },
                Err(violation) => {
                    let unknown = first_unknown(
                        names_view(registry@),
                        current_tag@,
                        single_tag@,
                        double_tag@,
                    );
                    let origin = DocModel::blank(names_view(registry@), current_tag@);
                    if unknown is Some {
                        violation.position == 0 && unknown == Some(violation.tag@)
                    } else {
                        &&& violation.position < log@.len()
                        &&& forall|i: int|
                            0 <= i < violation.position ==> admissible(origin, #[trigger] log@[i])
                        &&& !admissible(origin, log@[violation.position as int])
                        &&& crate::replay::named_tag(log@[violation.position as int]) == Some(
                            violation.tag@,
                        )
                    }
                },
            },
    {
        let mut session = match Session::new(registry, current_tag, single_tag, double_tag) {
            Ok(session) => session,
            Err(violation) => {
                return Err(violation);
            },
        };
        let ghost origin = session.doc@;
        let entries = log.snapshot();
        assert forall|i: int| 0 <= i < log@.len() implies log@[i] == (#[trigger] entries@[i])@ by {}
        match hydrate(entries, &mut session.doc) {
            Ok(_) => {},
            Err(violation) => {
                return Err(violation);
            },
        }
        proof {
            lemma_replay_keeps(origin, log@);
            lemma_replay_knows_current(origin, log@);
        }
        session.log = log;
        Ok(session)
    }
}

/// Replaying what typing logs gives the typed document.
pub proof fn lemma_typed_doc(doc: DocModel, offset: i32, content: Seq<char>)
    requires
        doc.wf(),
    ensures
        replay_model(doc, typing_ops(doc, offset, content)) == typed_doc(doc, offset, content),
        typed_doc(doc, offset, content).wf(),
        typed_doc(doc, offset, content).text == doc.text.take(doc.place(offset as int)) + content
            + doc.text.skip(doc.place(offset as int)),
        typed_doc(doc, offset, content).current_tag == doc.current_tag,
        typed_doc(doc, offset, content).registry == doc.registry,
{
    let typed = typing_ops(doc, offset, content);
    let none = Seq::<OpModel>::empty();
    lemma_replay_push(doc, none, typed[0]);
    lemma_apply_keeps(doc, OpModel::MoveCursor { position: offset });
    lemma_apply_keeps(
        doc.place_cursor(offset as int),
        OpModel::Insert { content, tag: doc.current_tag },
    );
    if typed.len() == 2 {
        lemma_replay_push(doc, none.push(typed[0]), typed[1]);
        assert(none.push(typed[0]).push(typed[1]) =~= typed);
    } else {
        assert(none.push(typed[0]) =~= typed);
        assert(doc.place_cursor(offset as int) == doc);
    }
}

/// A deletion leaves the candidate that survives it anchored.
pub proof fn lemma_delete_keeps_anchor(
    detector: BoldItalicTagState,
    doc: DocModel,
    start: int,
    end: int,
)
    requires
        doc.wf(),
        anchored(detector, doc),
    ensures
        ({
            let low = doc.low(start, end);
            let high = doc.high(start, end);
            anchored(
                if low < high {
                    unvalidated(survivor(detector, low))
                } else {
                    detector
                },
                doc.delete(start, end),
            )
        }),
{
    let low = doc.low(start, end);
    let high = doc.high(start, end);
    let after = doc.delete(start, end);
    if low < high {
        let left = unvalidated(survivor(detector, low));
        if left.single_asterisk_active {
            assert(after.text[left.start_offset as int] == doc.text[left.start_offset as int]);
        }
        if left.double_asterisk_active {
            assert(after.text[left.start_offset + 1] == doc.text[left.start_offset + 1]);
        }
    } else {
        assert(after.text =~= doc.text);
    }
}

/// What a typed character does to an anchored candidate: the offsets that
/// the detector computes fit; where the run goes on, it stays anchored in
/// the typed document; and where the run is completed, the operations
/// emphasise it there and leave no candidate.
pub proof fn lemma_marker_step(
    doc: DocModel,
    detector: BoldItalicTagState,
    offset: i32,
    content: Seq<char>,
)
    requires
        doc.wf(),
        anchored(detector, doc),
        doc.place(offset as int) <= i32::MAX,
        detector.phase() is Idle || guard(detector) < doc.place(offset as int),
        detector.single_asterisk_complete ==> closes(doc, doc.place(offset as int), content),
    ensures
        ({
            let at = doc.place(offset as int);
            let outcome = detector.on_char(run_shown(detector, doc.text, at), content);
            let middle = typed_doc(doc, offset, content);
            let after = replay_model(middle, detector.emitted(outcome, at as i32));
            &&& detector.in_range(outcome, at as i32)
            &&& anchored(detector.after(outcome, at as i32), after)
            &&& after.wf()
            &&& outcome is CommitSingle ==> emphasised(
                middle,
                after,
                detector.single_asterisk_tag_name@,
                detector.start_offset as int,
                1,
                at,
            )
            &&& outcome is CommitDouble ==> emphasised(
                middle,
                after,
                detector.double_asterisk_tag_name@,
                detector.start_offset as int,
                2,
                at,
            )
        }),
{
    let at = doc.place(offset as int);
    let start = detector.start_offset as int;
    let run = run_shown(detector, doc.text, at);
    let outcome = detector.on_char(run, content);
    let middle = typed_doc(doc, offset, content);
    lemma_typed_doc(doc, offset, content);
    assert(middle.cursor == at + content.len());
    assert forall|i: int| 0 <= i < at implies middle.text[i] == doc.text[i] by {}
    if content.len() == 1 {
        assert(middle.text[at] == content[0]);
    }
    if outcome is CommitSingle {
        lemma_commit_single(middle, detector, at as i32);
    } else if outcome is CommitDouble {
        assert(middle.text[at - 1] == doc.text[at - 1]);
        lemma_commit_double(middle, detector, at as i32);
    } else {
        assert(detector.emitted(outcome, at as i32) =~= Seq::<OpModel>::empty());
        assert(replay_model(middle, Seq::<OpModel>::empty()) == middle);
        if outcome is Escalate {
            if run.len() == 1 {
                assert(doc.text[start + 1] == run[0]);
            }
        } else if outcome is Slide {
            if run.len() == 1 {
                assert(doc.text[start + 2] == run[0]);
            }
        } else if outcome is Validate {
            assert(middle.text.subrange(start + 2, at) =~= run);
        }
    }
}

/// Replaying operations that name only existing tags leaves an existing tag
/// in force.
pub proof fn lemma_replay_knows_current(doc: DocModel, ops: Seq<OpModel>)
    requires
        doc.wf(),
        doc.knows(doc.current_tag),
        forall|i: int| 0 <= i < ops.len() ==> admissible(doc, #[trigger] ops[i]),
    ensures
        replay_model(doc, ops).knows(replay_model(doc, ops).current_tag),
    decreases ops.len(),
{
    if ops.len() > 0 {
        let head = ops.drop_last();
        assert forall|i: int| 0 <= i < head.len() implies admissible(doc, #[trigger] head[i]) by {
            assert(head[i] == ops[i]);
        }
        lemma_replay_knows_current(doc, head);
        lemma_replay_keeps(doc, head);
        assert(admissible(doc, ops[ops.len() - 1]));
    }
}

} // verus!
