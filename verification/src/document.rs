//! The document that the operations act on: its characters, the cursor, the
//! tag in force for new text, and the spans over which tags have been applied.
//!
//! Offsets count characters. An offset handed in from outside is first
//! brought into the document: one that is negative or lies past the end
//! stands for the end. A range given back to front is read front to back.

use vstd::prelude::*;

verus! {

/// A tag applied over the characters in `[start, end)`.
#[derive(Debug, PartialEq, Eq)]
pub struct TagSpan {
    pub tag: String,
    pub start: usize,
    pub end: usize,
}

/// What a [`TagSpan`] is.
pub struct SpanModel {
    pub tag: Seq<char>,
    pub start: int,
    pub end: int,
}

impl View for TagSpan {
    type V = SpanModel;

    open spec fn view(&self) -> SpanModel {
        SpanModel { tag: self.tag@, start: self.start as int, end: self.end as int }
    }
}

/// The models of a sequence of spans, entry by entry.
pub open spec fn spans_view(spans: Seq<TagSpan>) -> Seq<SpanModel> {
    Seq::new(spans.len(), |i: int| spans[i]@)
}

/// Where an offset `p` stands once `count` characters have entered at `at`.
/// A character that enters exactly at `p` lands after it.
pub open spec fn after_insert(p: int, at: int, count: int) -> int {
    if p > at {
        p + count
    } else {
        p
    }
}

/// Where an offset `p` stands once the characters in `[lo, hi)` have left.
pub open spec fn after_delete(p: int, lo: int, hi: int) -> int {
    if p <= lo {
        p
    } else if p >= hi {
        p - (hi - lo)
    } else {
        lo
    }
}

impl SpanModel {
    /// The span once `count` characters have entered at `at`. Text that
    /// enters strictly inside the span belongs to it; text at either edge
    /// does not.
    pub open spec fn after_insert(self, at: int, count: int) -> SpanModel {
        if self.start >= at {
            SpanModel { start: self.start + count, end: self.end + count, ..self }
        } else {
            SpanModel { end: after_insert(self.end, at, count), ..self }
        }
    }

    /// The span once the characters in `[lo, hi)` have left.
    pub open spec fn after_delete(self, lo: int, hi: int) -> SpanModel {
        SpanModel {
            start: after_delete(self.start, lo, hi),
            end: after_delete(self.end, lo, hi),
            ..self
        }
    }
}

/// What a [`Document`] is.
pub struct DocModel {
    /// The characters, in order.
    pub text: Seq<char>,
    /// Where the next insertion lands.
    pub cursor: int,
    /// The tags applied so far, oldest first.
    pub spans: Seq<SpanModel>,
    /// The tag that the editor gives to newly typed text.
    pub current_tag: Seq<char>,
    /// The names of the tags that exist.
    pub registry: Seq<Seq<char>>,
}

impl DocModel {
    /// The cursor and every span lie inside the text.
    pub open spec fn wf(self) -> bool {
        &&& 0 <= self.cursor <= self.text.len()
        &&& forall|i: int|
            0 <= i < self.spans.len() ==> 0 <= (#[trigger] self.spans[i]).start
                <= self.spans[i].end <= self.text.len()
    }

    /// The empty document over a registry of tags.
    pub open spec fn blank(registry: Seq<Seq<char>>, current_tag: Seq<char>) -> DocModel {
        DocModel { text: Seq::empty(), cursor: 0, spans: Seq::empty(), current_tag, registry }
    }

    /// Whether a tag of that name exists.
    pub open spec fn knows(self, tag: Seq<char>) -> bool {
        self.registry.contains(tag)
    }

    /// The place that an offset from outside stands for.
    pub open spec fn place(self, p: int) -> int {
        if 0 <= p <= self.text.len() {
            p
        } else {
            self.text.len() as int
        }
    }

    /// The lower end of the range that two offsets from outside stand for.
    pub open spec fn low(self, a: int, b: int) -> int {
        if self.place(a) <= self.place(b) {
            self.place(a)
        } else {
            self.place(b)
        }
    }

    /// The upper end of the range that two offsets from outside stand for.
    pub open spec fn high(self, a: int, b: int) -> int {
        if self.place(a) <= self.place(b) {
            self.place(b)
        } else {
            self.place(a)
        }
    }

    /// `content` enters at the cursor and carries `tag`; the cursor ends up
    /// behind it.
    pub open spec fn insert_at_cursor(self, content: Seq<char>, tag: Seq<char>) -> DocModel {
        let at = self.cursor;
        let count = content.len() as int;
        DocModel {
            text: self.text.take(at) + content + self.text.skip(at),
            cursor: at + count,
            spans: Seq::new(self.spans.len(), |i: int| self.spans[i].after_insert(at, count)).push(
                SpanModel { tag, start: at, end: at + count },
            ),
            ..self
        }
    }

    /// The characters between the two offsets leave; cursor and spans follow
    /// the text that stays.
    pub open spec fn delete(self, a: int, b: int) -> DocModel {
        let lo = self.low(a, b);
        let hi = self.high(a, b);
        DocModel {
            text: self.text.take(lo) + self.text.skip(hi),
            cursor: after_delete(self.cursor, lo, hi),
            spans: Seq::new(self.spans.len(), |i: int| self.spans[i].after_delete(lo, hi)),
            ..self
        }
    }

    /// The cursor moves to `p`.
    pub open spec fn place_cursor(self, p: int) -> DocModel {
        DocModel { cursor: self.place(p), ..self }
    }

    /// `tag` covers the characters between the two offsets.
    pub open spec fn apply_tag(self, tag: Seq<char>, a: int, b: int) -> DocModel {
        DocModel {
            spans: self.spans.push(SpanModel { tag, start: self.low(a, b), end: self.high(a, b) }),
            ..self
        }
    }

    /// `tag` becomes the tag for newly typed text.
    pub open spec fn select_tag(self, tag: Seq<char>) -> DocModel {
        DocModel { current_tag: tag, ..self }
    }

    /// Whether the character at `index` carries `tag`.
    pub open spec fn tagged(self, index: int, tag: Seq<char>) -> bool {
        exists|i: int|
            0 <= i < self.spans.len() && (#[trigger] self.spans[i]).tag == tag
                && self.spans[i].start <= index < self.spans[i].end
    }
}

/// A text buffer with a cursor, applied tags and a fixed registry of tag
/// names.
pub struct Document {
    text: Vec<char>,
    cursor: usize,
    spans: Vec<TagSpan>,
    current_tag: String,
    registry: Vec<String>,
}

/// The views of a sequence of strings, entry by entry.
pub open spec fn names_view(names: Seq<String>) -> Seq<Seq<char>> {
    Seq::new(names.len(), |i: int| names[i]@)
}

impl View for Document {
    type V = DocModel;

    closed spec fn view(&self) -> DocModel {
        DocModel {
            text: self.text@,
            cursor: self.cursor as int,
            spans: spans_view(self.spans@),
            current_tag: self.current_tag@,
            registry: names_view(self.registry@),
        }
    }
}

impl Document {
    /// An empty document in which the tags named in `registry` exist and
    /// `current_tag` is in force.
    pub fn new(registry: Vec<String>, current_tag: String) -> (doc: Self)
        ensures
            doc@ == DocModel::blank(names_view(registry@), current_tag@),
            doc@.wf(),
    {
        let doc = Document {
            text: Vec::new(),
            cursor: 0,
            spans: Vec::new(),
            current_tag,
            registry,
        };
        assert(spans_view(doc.spans@) =~= Seq::<SpanModel>::empty());
        doc
    }

    /// The characters of the document.
    pub fn text(&self) -> (text: &Vec<char>)
        ensures
            text@ == self@.text,
    {
        &self.text
    }

    /// The number of characters.
    pub fn len(&self) -> (len: usize)
        ensures
            len == self@.text.len(),
    {
        self.text.len()
    }

    /// The cursor's offset.
    pub fn cursor(&self) -> (cursor: usize)
        ensures
            cursor == self@.cursor,
    {
        self.cursor
    }

    /// The tag in force for newly typed text.
    pub fn current_tag(&self) -> (tag: &String)
        ensures
            tag@ == self@.current_tag,
    {
        &self.current_tag
    }

    /// The spans applied so far, oldest first.
    pub fn spans(&self) -> (spans: &Vec<TagSpan>)
        ensures
            spans_view(spans@) == self@.spans,
    {
        &self.spans
    }

    /// Whether a tag of that name exists.
    pub fn lookup_tag(&self, name: &String) -> (found: bool)
        ensures
            found == self@.knows(name@),
    {
        let mut i: usize = 0;
        while i < self.registry.len()
            invariant
                i <= self.registry.len(),
                forall|j: int| 0 <= j < i ==> self.registry@[j]@ != name@,
            decreases self.registry.len() - i,
        {
            if self.registry[i] == *name {
                assert(names_view(self.registry@)[i as int] == name@);
                return true;
            }
            i += 1;
        }
        false
    }

    /// Whether the character at `index` carries the tag `name`.
    pub fn has_tag(&self, index: usize, name: &String) -> (found: bool)
        ensures
            found == self@.tagged(index as int, name@),
    {
        let mut i: usize = 0;
        while i < self.spans.len()
            invariant
                i <= self.spans.len(),
                forall|j: int|
                    0 <= j < i ==> !((#[trigger] self.spans@[j]).tag@ == name@
                        && self.spans@[j].start <= index < self.spans@[j].end),
            decreases self.spans.len() - i,
        {
            let span = &self.spans[i];
            if span.tag == *name && span.start <= index && index < span.end {
                assert(self@.spans[i as int] == span@);
                return true;
            }
            i += 1;
        }
        assert forall|j: int| 0 <= j < self@.spans.len() implies !((#[trigger] self@.spans[j]).tag
            == name@ && self@.spans[j].start <= index < self@.spans[j].end) by {
            assert(self@.spans[j] == self.spans@[j]@);
        }
        false
    }

    /// The place in the document that an offset from outside stands for.
    pub fn place(&self, offset: i32) -> (place: usize)
        ensures
            place == self@.place(offset as int),
            place <= self@.text.len(),
    {
        if offset < 0 || offset as usize > self.text.len() {
            self.text.len()
        } else {
            offset as usize
        }
    }

    /// Inserts `content` at the cursor, tagged `tag`.
    pub fn insert_at_cursor(&mut self, content: &str, tag: &String)
        requires
            old(self)@.wf(),
        ensures
            final(self)@ == old(self)@.insert_at_cursor(content@, tag@),
            final(self)@.wf(),
    {
        let at: usize = self.cursor;
        let mut tail = self.text.split_off(at);
        for c in typed: content.chars()
            invariant
                typed.seq() == content@,
                self.text@ == old(self).text@.take(at as int) + content@.take(typed.index()),
                self.cursor == old(self).cursor,
                self.spans == old(self).spans,
                self.current_tag == old(self).current_tag,
                self.registry == old(self).registry,
        {
            assert(content@.take(typed.index() + 1) =~= content@.take(typed.index()).push(c));
            self.text.push(c);
        }
        assert(content@.take(content@.len() as int) =~= content@);
        let count: usize = self.text.len() - at;
        self.text.append(&mut tail);
        let mut spans: Vec<TagSpan> = Vec::new();
        let mut k: usize = 0;
        while k < self.spans.len()
            invariant
                k <= self.spans.len(),
                spans.len() == k,
                self.spans == old(self).spans,
                old(self).text.len() + count == self.text.len(),
                at <= old(self).text.len(),
                old(self)@.wf(),
                forall|j: int|
                    0 <= j < k ==> (#[trigger] spans@[j])@ == old(self).spans@[j]@.after_insert(
                        at as int,
                        count as int,
                    ),
            decreases self.spans.len() - k,
        {
            let span = &self.spans[k];
            assert(old(self)@.spans[k as int] == span@);
            assert(old(self)@.spans[k as int].end <= old(self)@.text.len());
            let moved = if span.start >= at {
                TagSpan { tag: span.tag.clone(), start: span.start + count, end: span.end + count }
            } else if span.end > at {
                TagSpan { tag: span.tag.clone(), start: span.start, end: span.end + count }
            } else {
                TagSpan { tag: span.tag.clone(), start: span.start, end: span.end }
            };
            spans.push(moved);
            k += 1;
        }
        spans.push(TagSpan { tag: tag.clone(), start: at, end: at + count });
        self.spans = spans;
        self.cursor = at + count;
        assert(self@.spans =~= old(self)@.insert_at_cursor(content@, tag@).spans);
        assert forall|i: int| 0 <= i < self@.spans.len() implies 0 <= (#[trigger] self@.spans[i]).start
            <= self@.spans[i].end <= self@.text.len() by {
            if i < old(self)@.spans.len() {
                assert(0 <= old(self)@.spans[i].start);
            }
        }
    }

    /// Removes the characters between the two offsets.
    pub fn delete(&mut self, start: i32, end: i32)
        requires
            old(self)@.wf(),
        ensures
            final(self)@ == old(self)@.delete(start as int, end as int),
            final(self)@.wf(),
    {
        let a = self.place(start);
        let b = self.place(end);
        let lo: usize = if a <= b { a } else { b };
        let hi: usize = if a <= b { b } else { a };
        let mut tail = self.text.split_off(hi);
        self.text.truncate(lo);
        self.text.append(&mut tail);
        assert(self.text@ =~= old(self)@.text.take(lo as int) + old(self)@.text.skip(hi as int));
        let mut spans: Vec<TagSpan> = Vec::new();
        let mut k: usize = 0;
        while k < self.spans.len()
            invariant
                k <= self.spans.len(),
                spans.len() == k,
                self.spans == old(self).spans,
                lo <= hi <= old(self).text.len(),
                old(self)@.wf(),
                forall|j: int|
                    0 <= j < k ==> (#[trigger] spans@[j])@ == old(self).spans@[j]@.after_delete(
                        lo as int,
                        hi as int,
                    ),
            decreases self.spans.len() - k,
        {
            let span = &self.spans[k];
            assert(spans_view(old(self).spans@)[k as int] == span@);
            spans.push(
                TagSpan {
                    tag: span.tag.clone(),
                    start: moved_by_delete(span.start, lo, hi),
                    end: moved_by_delete(span.end, lo, hi),
                },
            );
            k += 1;
        }
        self.spans = spans;
        self.cursor = moved_by_delete(self.cursor, lo, hi);
        assert(self@.spans =~= old(self)@.delete(start as int, end as int).spans);
        assert forall|i: int| 0 <= i < self@.spans.len() implies 0 <= (#[trigger] self@.spans[i]).start
            <= self@.spans[i].end <= self@.text.len() by {
            assert(0 <= old(self)@.spans[i].start);
        }
    }

    /// Moves the cursor to `offset`.
    pub fn place_cursor(&mut self, offset: i32)
        requires
            old(self)@.wf(),
        ensures
            final(self)@ == old(self)@.place_cursor(offset as int),
            final(self)@.wf(),
    {
        let place = self.place(offset);
        self.cursor = place;
        assert(self@.spans == old(self)@.spans);
    }

    /// Applies `tag` over the characters between the two offsets.
    pub fn apply_tag(&mut self, tag: &String, start: i32, end: i32)
        requires
            old(self)@.wf(),
        ensures
            final(self)@ == old(self)@.apply_tag(tag@, start as int, end as int),
            final(self)@.wf(),
    {
        let a = self.place(start);
        let b = self.place(end);
        let lo: usize = if a <= b { a } else { b };
        let hi: usize = if a <= b { b } else { a };
        self.spans.push(TagSpan { tag: tag.clone(), start: lo, end: hi });
        assert(self@.spans =~= old(self)@.apply_tag(tag@, start as int, end as int).spans);
        assert forall|i: int| 0 <= i < self@.spans.len() implies 0 <= (#[trigger] self@.spans[i]).start
            <= self@.spans[i].end <= self@.text.len() by {
            if i < old(self)@.spans.len() {
                assert(0 <= old(self)@.spans[i].start);
            }
        }
    }

    /// Makes `tag` the tag for newly typed text.
    pub fn select_tag(&mut self, tag: &String)
        ensures
            final(self)@ == old(self)@.select_tag(tag@),
    {
        self.current_tag = tag.clone();
    }
}

/// Where the offset `p` stands once the characters in `[lo, hi)` have left.
fn moved_by_delete(p: usize, lo: usize, hi: usize) -> (moved: usize)
    requires
        lo <= hi,
    ensures
        moved == after_delete(p as int, lo as int, hi as int),
{
    if p <= lo {
        p
    } else if p >= hi {
        p - (hi - lo)
    } else {
        lo
    }
}

} // verus!
