//! The markup detector: a state machine that watches single-character
//! insertions, recognises `*word*` and `**word**` while they are typed, and
//! answers a completed run with the operations that remove its markers and
//! tag the text between them.
//!
//! One detector tracks one candidate run. A marker typed while a run is
//! pending either carries that run forward or abandons it and opens a new one
//! at the marker; candidates never stack.
//!
//! The detector goes by its phase and by the two ends of the run text it is
//! shown, and by nothing else. It does not look into the document: that the
//! text it is shown stands where its offsets say is the caller's business.

use vstd::prelude::*;
use vstd::string::StrSliceExecFns;
use crate::text_ops::{OpModel, Ops, ops_view};

verus! {

pub enum TagType {
    Bold,
    Italic,
    BoldItalic,
}

/// Tracking state for a tag with a one-character delimiter.
pub struct TextTagState {
    pub is_active: bool,
    pub start_offset: i32,
    pub tag_type: TagType,
    pub tag_symbol: char,
}

impl TextTagState {
    /// An inactive state with no start offset (`-1`).
    pub fn new(tag_type: TagType, tag_symbol: char) -> (state: Self)
        ensures
            !state.is_active,
            state.start_offset == -1,
            state.tag_type == tag_type,
            state.tag_symbol == tag_symbol,
    {
        TextTagState { is_active: false, start_offset: -1, tag_type, tag_symbol }
    }
}

/// The emphasis delimiter.
pub open spec fn is_marker(c: char) -> bool {
    c == '*'
}

/// The character next to which a marker neither opens nor closes a run: the
/// space.
pub open spec fn is_blank(c: char) -> bool {
    c == ' '
}

/// A run with nothing between the markers: no text at all, or the one marker
/// that stands between an opening marker and the marker typed behind it.
pub open spec fn bare(run: Seq<char>) -> bool {
    run.len() == 0 || (run.len() == 1 && is_marker(run[0]))
}

/// A run may be emphasised when it is not empty and neither begins nor ends
/// with a blank.
pub open spec fn tight(run: Seq<char>) -> bool {
    run.len() > 0 && !is_blank(run.first()) && !is_blank(run.last())
}

/// Where the detector stands.
pub enum Phase {
    /// No candidate run.
    Idle,
    /// One opening marker has been typed.
    SingleMarkerOpen,
    /// Two adjacent opening markers have been typed; no closing marker yet.
    DoubleMarkerOpen,
    /// A double run has met a closing marker and waits for the second one.
    SingleMarkerClosedPendingDouble,
}

/// What a typed character does to the detector.
pub enum Outcome {
    /// Nothing changes.
    Stay,
    /// A new candidate opens at the typed marker; a pending one is abandoned.
    Open,
    /// The second of two adjacent markers turns a single candidate into a
    /// double one.
    Escalate,
    /// A third adjacent marker: the opening pair moves one place to the right.
    Slide,
    /// A double run has met a closing marker next to acceptable text.
    Validate,
    /// A single run is complete.
    CommitSingle,
    /// A double run is complete.
    CommitDouble,
}

/// State of the detector for `*` and `**`.
pub struct BoldItalicTagState {
    pub single_asterisk_active: bool,
    pub double_asterisk_active: bool,
    pub single_asterisk_complete: bool,
    pub start_offset: i32,
    pub end_offset: i32,
    pub single_asterisk_tag_name: String,
    pub double_asterisk_tag_name: String,
}

impl BoldItalicTagState {
    /// The phase that the three flags stand for.
    pub open spec fn phase(self) -> Phase {
        if self.double_asterisk_active {
            if self.single_asterisk_complete {
                Phase::SingleMarkerClosedPendingDouble
            } else {
                Phase::DoubleMarkerOpen
            }
        } else if self.single_asterisk_active {
            Phase::SingleMarkerOpen
        } else {
            Phase::Idle
        }
    }

    /// What a typed marker does, where `run` is the text between the opening
    /// marker, or pair of markers, and the typed one.
    ///
    /// With no candidate, the marker opens one. Behind a single opening
    /// marker, a bare run escalates, a run with a blank at either end is
    /// abandoned for a new candidate at the typed marker, and any other run is
    /// complete. Behind an opening pair, a bare run slides the pair, a run
    /// with a blank at either end is abandoned for a new candidate at the
    /// typed marker, and any other run is validated. A validated run is
    /// completed by the next marker, whatever the text.
    pub open spec fn on_marker(self, run: Seq<char>) -> Outcome {
        match self.phase() {
            Phase::Idle => Outcome::Open,
            Phase::SingleMarkerOpen => {
                if bare(run) {
                    Outcome::Escalate
                } else if tight(run) {
                    Outcome::CommitSingle
                } else {
                    Outcome::Open
                }
            },
            Phase::DoubleMarkerOpen => {
                if bare(run) {
                    Outcome::Slide
                } else if tight(run) {
                    Outcome::Validate
                } else {
                    Outcome::Open
                }
            },
            Phase::SingleMarkerClosedPendingDouble => Outcome::CommitDouble,
        }
    }

    /// What a typed character does: only a lone `*` is a marker.
    pub open spec fn on_char(self, run: Seq<char>, typed: Seq<char>) -> Outcome {
        if typed.len() == 1 && is_marker(typed[0]) {
            self.on_marker(run)
        } else {
            Outcome::Stay
        }
    }

    /// Whether the offsets that `outcome` computes for a marker typed at
    /// `offset` are offsets that an operation can carry.
    pub open spec fn in_range(self, outcome: Outcome, offset: i32) -> bool {
        match outcome {
            Outcome::Slide => self.start_offset + 1 <= i32::MAX,
            Outcome::CommitSingle => self.start_offset + 1 <= i32::MAX && i32::MIN <= offset - 1,
            Outcome::CommitDouble => self.start_offset + 2 <= i32::MAX && i32::MIN <= offset - 3,
            _ => true,
        }
    }

    /// The state with no candidate run.
    pub open spec fn cleared(self) -> Self {
        BoldItalicTagState {
            single_asterisk_active: false,
            double_asterisk_active: false,
            single_asterisk_complete: false,
            start_offset: -1i32,
            ..self
        }
    }

    /// The state after `outcome`, for a character typed at `offset`. Each
    /// outcome touches only what it names: opening a candidate leaves the
    /// validation flag as it was, and so does escalating.
    pub open spec fn after(self, outcome: Outcome, offset: i32) -> Self {
        match outcome {
            Outcome::Stay => self,
            Outcome::Open => BoldItalicTagState {
                single_asterisk_active: true,
                double_asterisk_active: false,
                start_offset: offset,
                ..self
            },
            Outcome::Escalate => BoldItalicTagState { double_asterisk_active: true, ..self },
            Outcome::Slide => BoldItalicTagState {
                single_asterisk_active: true,
                double_asterisk_active: true,
                start_offset: (self.start_offset + 1) as i32,
                ..self
            },
            Outcome::Validate => BoldItalicTagState { single_asterisk_complete: true, ..self },
            Outcome::CommitSingle | Outcome::CommitDouble => self.cleared(),
        }
    }

    /// The operations that `outcome` emits for a marker typed at `offset`, in
    /// the order in which they are to be applied. Each offset is relative to
    /// the document as the operations before it leave it.
    pub open spec fn emitted(self, outcome: Outcome, offset: i32) -> Seq<OpModel> {
        let start = self.start_offset;
        match outcome {
            Outcome::CommitSingle => seq![
                OpModel::Delete { start, end: (start + 1) as i32 },
                OpModel::Delete { start: (offset - 1) as i32, end: offset },
                OpModel::ApplyTag {
                    tag: self.single_asterisk_tag_name@,
                    start,
                    end: (offset - 1) as i32,
                },
            ],
            Outcome::CommitDouble => seq![
                OpModel::Delete { start, end: (start + 2) as i32 },
                OpModel::Delete { start: (offset - 3) as i32, end: (offset - 1) as i32 },
                OpModel::ApplyTag {
                    tag: self.double_asterisk_tag_name@,
                    start,
                    end: (offset - 3) as i32,
                },
            ],
            _ => Seq::empty(),
        }
    }

    /// A detector in phase `Idle` that answers single runs with
    /// `single_asterisk_tag_name` and double runs with
    /// `double_asterisk_tag_name`.
    pub fn new(single_asterisk_tag_name: String, double_asterisk_tag_name: String) -> (state: Self)
        ensures
            state.phase() is Idle,
            !state.single_asterisk_active,
            !state.single_asterisk_complete,
            state.start_offset == -1,
            state.end_offset == -1,
            state.single_asterisk_tag_name == single_asterisk_tag_name,
            state.double_asterisk_tag_name == double_asterisk_tag_name,
    {
        BoldItalicTagState {
            single_asterisk_active: false,
            double_asterisk_active: false,
            single_asterisk_complete: false,
            start_offset: -1,
            end_offset: -1,
            single_asterisk_tag_name,
            double_asterisk_tag_name,
        }
    }

    /// Drops the candidate run.
    pub fn reset_state(&mut self)
        ensures
            *final(self) == old(self).cleared(),
    {
        self.start_offset = -1;
        self.single_asterisk_complete = false;
        self.single_asterisk_active = false;
        self.double_asterisk_active = false;
    }

    /// Feeds the detector one typed character.
    ///
    /// `offset` is where `last_char` now stands in the document, and
    /// `string_to_modify` is the text between the opening marker, or pair of
    /// markers, and the closing one; it is not looked at where no candidate
    /// is open or the run is validated. Returns the detector and the
    /// operations to apply and log.
    ///
    /// The offsets of the operations must fit: a run cannot be completed
    /// within two places of the largest offset or three of the smallest.
    pub fn update_state(
        &mut self,
        offset: i32,
        string_to_modify: String,
        last_char: String,
    ) -> (result: (&Self, Vec<Ops>))
        requires
            old(self).in_range(old(self).on_char(string_to_modify@, last_char@), offset),
        ensures
            *final(self) == old(self).after(
                old(self).on_char(string_to_modify@, last_char@),
                offset,
            ),
            *result.0 == *final(self),
            ops_view(result.1@) == old(self).emitted(
                old(self).on_char(string_to_modify@, last_char@),
                offset,
            ),
    {
        let typed = last_char.as_str();
        if typed.unicode_len() == 1 && typed.get_char(0) == '*' {
            self.update_state_with_asterisk(offset, string_to_modify)
        } else {
            let ops: Vec<Ops> = Vec::new();
            assert(ops_view(ops@) =~= Seq::<OpModel>::empty());
            (self, ops)
        }
    }

    /// Feeds the detector a marker typed at `offset`.
    pub fn update_state_with_asterisk(&mut self, offset: i32, string_to_modify: String) -> (result:
        (&Self, Vec<Ops>))
        requires
            old(self).in_range(old(self).on_marker(string_to_modify@), offset),
        ensures
            *final(self) == old(self).after(old(self).on_marker(string_to_modify@), offset),
            *result.0 == *final(self),
            ops_view(result.1@) == old(self).emitted(
                old(self).on_marker(string_to_modify@),
                offset,
            ),
    {
        let outcome = self.classify(&string_to_modify);
        let mut ops: Vec<Ops> = Vec::new();
        let start: i32 = self.start_offset;
        match outcome {
            Outcome::Stay => {},
            Outcome::Open => {
                self.single_asterisk_active = true;
                self.double_asterisk_active = false;
                self.start_offset = offset;
            },
            Outcome::Escalate => {
                self.double_asterisk_active = true;
            },
            Outcome::Slide => {
                self.single_asterisk_active = true;
                self.double_asterisk_active = true;
                self.start_offset = start + 1;
            },
            Outcome::Validate => {
                self.single_asterisk_complete = true;
            },
            Outcome::CommitSingle => {
                ops.push(Ops::Delete((start, start + 1)));
                ops.push(Ops::Delete((offset - 1, offset)));
                ops.push(Ops::ApplyTag((self.single_asterisk_tag_name.clone(), start, offset - 1)));
                self.reset_state();
            },
            Outcome::CommitDouble => {
                ops.push(Ops::Delete((start, start + 2)));
                ops.push(Ops::Delete((offset - 3, offset - 1)));
                ops.push(Ops::ApplyTag((self.double_asterisk_tag_name.clone(), start, offset - 3)));
                self.reset_state();
            },
        }
        assert(ops_view(ops@) =~= old(self).emitted(outcome, offset));
        (self, ops)
    }

    /// Decides what a typed marker does.
    fn classify(&self, run: &String) -> (outcome: Outcome)
        ensures
            outcome == self.on_marker(run@),
    {
        if !self.double_asterisk_active && !self.single_asterisk_active {
            return Outcome::Open;
        }
        if self.double_asterisk_active && self.single_asterisk_complete {
            return Outcome::CommitDouble;
        }
        let text = run.as_str();
        let len: usize = text.unicode_len();
        if len == 0 || (len == 1 && text.get_char(0) == '*') {
            if self.double_asterisk_active {
                Outcome::Slide
            } else {
                Outcome::Escalate
            }
        } else if is_blank_char(text.get_char(0)) || is_blank_char(text.get_char(len - 1)) {
            Outcome::Open
        } else if self.double_asterisk_active {
            Outcome::Validate
        } else {
            Outcome::CommitSingle
        }
    }
}

/// The detector emits nothing but deletions and applications of its own two
/// tags: three operations where a run is complete, none otherwise.
pub proof fn lemma_emitted_shape(state: BoldItalicTagState, outcome: Outcome, offset: i32)
    ensures
        state.emitted(outcome, offset).len() == (if outcome is CommitSingle
            || outcome is CommitDouble {
            3int
        } else {
            0int
        }),
        forall|i: int|
            0 <= i < state.emitted(outcome, offset).len() ==> match #[trigger] state.emitted(
                outcome,
                offset,
            )[i] {
                OpModel::Delete { .. } => true,
                OpModel::ApplyTag { tag, .. } => tag == state.single_asterisk_tag_name@ || tag
                    == state.double_asterisk_tag_name@,
                _ => false,
            },
{
}

/// Whether `c` is a blank.
pub fn is_blank_char(c: char) -> (blank: bool)
    ensures
        blank == is_blank(c),
{
    c == ' '
}

} // verus!
