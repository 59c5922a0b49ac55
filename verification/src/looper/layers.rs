//! Where the loop is kept: a fixed stack of layers, each the length of the
//! longest loop, and which of their frames the loop is made of.
//!
//! A loop is the sum of its layers, taken as it is read. The first layer is
//! the take, and its length is the loop's; every layer over it is an overdub,
//! laid round the loop from where the player punched in and wrapping at its
//! end. Storage is allocated once and never grows: one grown to meet a long
//! take would allocate on the thread that may not. Samples are kept as the
//! bits of their value, and what a frame sounds like is the sum, over the
//! layers that cover it, of what each holds there.

use vstd::prelude::*;

use super::LAYERS;

verus! {

/// The stack of layers as its operations read it.
pub struct LayersView {
    /// Every layer's samples, one layer after another, each `capacity` long.
    pub samples: Seq<u32>,
    /// The most frames a layer holds.
    pub capacity: int,
    /// How many frames of each layer have been played into it.
    pub written: Seq<usize>,
    /// Where each layer is written next.
    pub cursor: Seq<usize>,
    /// How many layers the loop is made of.
    pub depth: int,
    /// The layer taking what is recorded, where one is.
    pub open: Option<usize>,
    /// Where the summary of the loop is still to be repainted from.
    pub stale: Option<usize>,
}

/// Where frame `frame` of layer `layer` is kept.
pub open spec fn slot(capacity: int, layer: int, frame: int) -> int {
    layer * capacity + frame
}

/// How long the loop is: what its take holds.
pub open spec fn loop_length(view: LayersView) -> int {
    view.written[0] as int
}

/// Whether the stack hangs together.
///
/// The take's cursor is its length; an overdub never holds more than the
/// loop and its cursor is inside the loop; layers above the stack hold
/// nothing; a stack with an overdub has a loop under it; the open layer is
/// the take while there is no overdub, and otherwise the top one.
pub open spec fn layers_wf(view: LayersView) -> bool {
    &&& view.capacity > 0
    &&& view.samples.len() == view.capacity * LAYERS
    &&& view.written.len() == LAYERS
    &&& view.cursor.len() == LAYERS
    &&& 0 <= view.depth <= LAYERS
    &&& view.written[0] <= view.capacity
    &&& view.cursor[0] == view.written[0]
    &&& forall|layer: int|
        1 <= layer < view.depth ==> #[trigger] view.written[layer] <= loop_length(view)
            && view.cursor[layer] < loop_length(view)
    &&& forall|layer: int|
        view.depth <= layer < LAYERS ==> #[trigger] view.written[layer] == 0 && view.cursor[layer] == 0
    &&& view.depth >= 2 ==> loop_length(view) > 0
    &&& match view.open {
        None => true,
        Some(open) => (open == 0 && view.depth <= 1) || (open >= 1 && open + 1 == view.depth),
    }
    &&& match view.stale {
        None => true,
        Some(from) => from < loop_length(view),
    }
}

/// A stack of layers `capacity` frames long with nothing in it, its take open.
pub open spec fn empty_layers(capacity: int) -> LayersView {
    LayersView {
        samples: Seq::new((capacity * LAYERS) as nat, |index: int| 0u32),
        capacity,
        written: Seq::new(LAYERS as nat, |layer: int| 0usize),
        cursor: Seq::new(LAYERS as nat, |layer: int| 0usize),
        depth: 0,
        open: Some(0),
        stale: None,
    }
}

/// The lesser of two counts.
pub open spec fn smaller(one: int, other: int) -> int {
    if one <= other { one } else { other }
}

/// How many frames the open layer still has room for: the rest of the
/// longest loop for the take, and the rest of the loop for an overdub.
pub open spec fn vacancy(view: LayersView) -> int {
    match view.open {
        None => 0,
        Some(open) => if open == 0 {
            view.capacity - view.written[0]
        } else {
            loop_length(view) - view.written[open as int]
        },
    }
}

/// `samples` with `captured` laid into the layer starting at `base`, one
/// frame at a time from `cursor`, wrapping at a loop `length` frames long: a
/// frame written twice holds what was laid there last.
pub open spec fn laid(samples: Seq<u32>, base: int, length: int, cursor: int, captured: Seq<u32>) -> Seq<u32>
    decreases captured.len(),
{
    if captured.len() == 0 {
        samples
    } else {
        let last = captured.len() - 1;
        laid(samples, base, length, cursor, captured.drop_last()).update(
            base + (cursor + last) % length,
            captured.last(),
        )
    }
}

/// `view` with `captured` recorded into its open layer.
///
/// The take grows by as much as it has room for. An overdub takes all of it,
/// laid round the loop from its cursor, and holds no more than the loop.
pub open spec fn recorded_into(view: LayersView, captured: Seq<u32>) -> LayersView {
    match view.open {
        None => view,
        Some(open) => if open == 0 {
            let from = view.written[0] as int;
            let taken = smaller(captured.len() as int, view.capacity - from);
            LayersView {
                samples: Seq::new(
                    view.samples.len(),
                    |index: int|
                        if from <= index < from + taken {
                            captured[index - from]
                        } else {
                            view.samples[index]
                        },
                ),
                written: view.written.update(0, (from + taken) as usize),
                cursor: view.cursor.update(0, (from + taken) as usize),
                depth: if view.depth >= 1 { view.depth } else { 1 },
                ..view
            }
        } else {
            let length = loop_length(view);
            let cursor = view.cursor[open as int] as int;
            LayersView {
                samples: laid(view.samples, slot(view.capacity, open as int, 0), length, cursor, captured),
                written: view.written.update(
                    open as int,
                    smaller(view.written[open as int] + captured.len(), length) as usize,
                ),
                cursor: view.cursor.update(open as int, ((cursor + captured.len()) % length) as usize),
                ..view
            }
        },
    }
}

/// `view` with a layer opened over the loop at frame `at`, and whether there
/// was one to open: none over a full stack or a loop of no frames.
pub open spec fn overdubbed(view: LayersView, at: int) -> (LayersView, bool) {
    if view.depth == LAYERS || loop_length(view) == 0 {
        (view, false)
    } else {
        (
            LayersView {
                written: view.written.update(view.depth, 0usize),
                cursor: view.cursor.update(view.depth, (at % loop_length(view)) as usize),
                open: Some(view.depth as usize),
                depth: view.depth + 1,
                ..view
            },
            true,
        )
    }
}

/// `view` with its most recent overdub taken off, and whether there was one:
/// the take itself is never undone.
pub open spec fn undone(view: LayersView) -> (LayersView, bool) {
    if view.depth < 2 {
        (view, false)
    } else {
        let top = view.depth - 1;
        (
            LayersView {
                depth: top,
                written: view.written.update(top, 0usize),
                cursor: view.cursor.update(top, 0usize),
                open: None,
                stale: Some(0usize),
                ..view
            },
            true,
        )
    }
}

/// Whether frame `frame` is among the `recorded` frames a layer holds, laid
/// up to `cursor` in a loop `length` frames long: those before the cursor,
/// and what wrapped from the end of the loop.
pub open spec fn in_spans(cursor: int, recorded: int, length: int, frame: int) -> bool {
    let before = smaller(cursor, recorded);
    let past = recorded - before;
    (cursor - before <= frame < cursor) || (length - past <= frame < length)
}

/// Whether layer `layer` sounds at frame `frame` of the loop.
pub open spec fn covers(view: LayersView, layer: int, frame: int) -> bool {
    &&& 0 <= layer < view.depth
    &&& in_spans(view.cursor[layer] as int, view.written[layer] as int, loop_length(view), frame)
}

/// What layer `layer` holds at frame `frame`, where it sounds there.
pub open spec fn heard(view: LayersView, layer: int, frame: int) -> Option<u32> {
    if covers(view, layer, frame) {
        Some(view.samples[slot(view.capacity, layer, frame)])
    } else {
        None
    }
}

proof fn lemma_slot_in_storage(capacity: int, layer: int, frame: int)
    requires
        capacity > 0,
        0 <= layer < LAYERS,
        0 <= frame < capacity,
    ensures
        0 <= slot(capacity, layer, frame) < capacity * LAYERS,
        layer * capacity <= slot(capacity, layer, frame) < (layer + 1) * capacity,
{
    assert(layer * capacity + frame < (layer + 1) * capacity) by (nonlinear_arith)
        requires
            frame < capacity,
    ;
    assert((layer + 1) * capacity <= capacity * LAYERS) by (nonlinear_arith)
        requires
            layer + 1 <= LAYERS,
            capacity > 0,
    ;
    assert(layer * capacity >= 0) by (nonlinear_arith)
        requires
            layer >= 0,
            capacity > 0,
    ;
}

proof fn lemma_layers_apart(capacity: int, one: int, other: int, frame: int, at: int)
    requires
        capacity > 0,
        0 <= one < other < LAYERS,
        0 <= frame < capacity,
        0 <= at < capacity,
    ensures
        slot(capacity, one, frame) < slot(capacity, other, at),
{
    lemma_slot_in_storage(capacity, one, frame);
    lemma_slot_in_storage(capacity, other, at);
    assert((one + 1) * capacity <= other * capacity) by (nonlinear_arith)
        requires
            one + 1 <= other,
            capacity > 0,
    ;
}

/// Laying samples into one layer leaves every other slot as it was, and the
/// storage as long.
proof fn lemma_laid_stays_in_its_layer(samples: Seq<u32>, base: int, length: int, cursor: int, captured: Seq<u32>)
    requires
        length > 0,
        0 <= base,
        base + length <= samples.len(),
    ensures
        laid(samples, base, length, cursor, captured).len() == samples.len(),
        forall|index: int|
            0 <= index < samples.len() && !(base <= index < base + length) ==> #[trigger] laid(
                samples,
                base,
                length,
                cursor,
                captured,
            )[index] == samples[index],
    decreases captured.len(),
{
    if captured.len() > 0 {
        lemma_laid_stays_in_its_layer(samples, base, length, cursor, captured.drop_last());
        let at = (cursor + captured.len() - 1) % length;
        assert(0 <= at < length);
    }
}

proof fn lemma_wrap_step(cursor: int, done: int, length: int, at: int)
    requires
        length > 0,
        cursor >= 0,
        done >= 0,
        at == (cursor + done) % length,
    ensures
        (cursor + done + 1) % length == if at + 1 == length { 0 } else { at + 1 },
{
    let whole = (cursor + done) / length;
    vstd::arithmetic::div_mod::lemma_fundamental_div_mod(cursor + done, length);
    vstd::arithmetic::div_mod::lemma_mod_pos_bound(cursor + done, length);
    assert(cursor + done == whole * length + at) by (nonlinear_arith)
        requires
            cursor + done == length * whole + at,
    ;
    if at + 1 == length {
        assert(cursor + done + 1 == (whole + 1) * length + 0) by (nonlinear_arith)
            requires
                cursor + done == whole * length + at,
                at + 1 == length,
        ;
        vstd::arithmetic::div_mod::lemma_fundamental_div_mod_converse(cursor + done + 1, length, whole + 1, 0);
    } else {
        vstd::arithmetic::div_mod::lemma_fundamental_div_mod_converse(cursor + done + 1, length, whole, at + 1);
    }
}

/// The layers of a loop, in storage allocated once.
pub struct LoopLayers {
    samples: Vec<u32>,
    capacity: usize,
    written: Vec<usize>,
    cursor: Vec<usize>,
    depth: usize,
    open: Option<usize>,
    stale: Option<usize>,
}

impl View for LoopLayers {
    type V = LayersView;

    closed spec fn view(&self) -> LayersView {
        LayersView {
            samples: self.samples@,
            capacity: self.capacity as int,
            written: self.written@,
            cursor: self.cursor@,
            depth: self.depth as int,
            open: self.open,
            stale: self.stale,
        }
    }
}

impl LoopLayers {
    /// Whether the stack hangs together, as [`layers_wf`] says.
    pub closed spec fn wf(&self) -> bool {
        layers_wf(self@)
    }

    /// A stack of layers for loops up to `capacity` frames long, with nothing
    /// recorded and the take open.
    ///
    /// The storage is allocated here and never again, so this belongs in
    /// setup. A layer of no frames could hold no loop, so `capacity` is never
    /// zero.
    pub fn for_capacity(capacity: usize) -> (layers: Self)
        requires
            capacity > 0,
            capacity * LAYERS <= usize::MAX,
        ensures
            layers@ == empty_layers(capacity as int),
            layers.wf(),
    {
        let cells = capacity * LAYERS;
        let mut samples: Vec<u32> = Vec::new();
        while samples.len() < cells
            invariant
                samples@.len() <= cells,
                forall|index: int| 0 <= index < samples@.len() ==> #[trigger] samples@[index] == 0u32,
            decreases cells - samples@.len(),
        {
            samples.push(0);
        }
        let mut written: Vec<usize> = Vec::new();
        let mut cursor: Vec<usize> = Vec::new();
        while written.len() < LAYERS
            invariant
                written@.len() <= LAYERS,
                cursor@.len() == written@.len(),
                forall|layer: int| 0 <= layer < written@.len() ==> #[trigger] written@[layer] == 0usize,
                forall|layer: int| 0 <= layer < cursor@.len() ==> #[trigger] cursor@[layer] == 0usize,
            decreases LAYERS - written@.len(),
        {
            written.push(0);
            cursor.push(0);
        }
        let layers = Self { samples, capacity, written, cursor, depth: 0, open: Some(0), stale: None };
        assert(layers@.samples =~= empty_layers(capacity as int).samples);
        assert(layers@.written =~= empty_layers(capacity as int).written);
        assert(layers@.cursor =~= empty_layers(capacity as int).cursor);
        layers
    }

    /// How long the loop is.
    pub fn len(&self) -> (length: usize)
        requires
            self.wf(),
        ensures
            length == loop_length(self@),
    {
        self.written[0]
    }

    /// Whether nothing has been recorded.
    pub fn is_empty(&self) -> (empty: bool)
        requires
            self.wf(),
        ensures
            empty == (loop_length(self@) == 0),
    {
        self.len() == 0
    }

    /// How many layers the loop is made of.
    pub fn depth(&self) -> (depth: usize)
        requires
            self.wf(),
        ensures
            depth == self@.depth,
            depth <= LAYERS,
    {
        self.depth
    }

    /// The most frames a layer holds.
    pub fn capacity(&self) -> (capacity: usize)
        ensures
            capacity == self@.capacity,
    {
        self.capacity
    }

    /// How many more frames the open layer takes before it is full: none with
    /// no layer open.
    pub fn vacant(&self) -> (vacant: usize)
        requires
            self.wf(),
        ensures
            vacant == vacancy(self@),
    {
        match self.open {
            None => 0,
            Some(open) => if open == 0 {
                self.capacity - self.written[0]
            } else {
                self.written[0] - self.written[open]
            },
        }
    }

    /// Record `captured` into the open layer, and report how many frames were
    /// taken and the spans of the loop they landed in, each as its first frame
    /// and how many frames from there.
    ///
    /// The take grows by as much as it has room for; an overdub takes all of
    /// it, laid round the loop from its cursor. With no layer open nothing is
    /// taken.
    pub fn record_bits(&mut self, captured: &[u32]) -> (recorded: (usize, Vec<(usize, usize)>))
        requires
            old(self).wf(),
        ensures
            final(self)@ == recorded_into(old(self)@, captured@),
            recorded.0 == match old(self)@.open {
                None => 0,
                Some(open) => if open == 0 {
                    smaller(captured@.len() as int, old(self)@.capacity - old(self)@.written[0])
                } else {
                    captured@.len() as int
                },
            },
            forall|index: int|
                0 <= index < recorded.1@.len() ==> #[trigger] recorded.1@[index].0 + recorded.1@[index].1
                    <= loop_length(final(self)@),
            final(self).wf(),
    {
        match self.open {
            None => {
                assert(recorded_into(self@, captured@) == self@);
                (0, Vec::new())
            },
            Some(open) => if open == 0 {
                self.append(captured)
            } else {
                self.lay_round(open, captured)
            },
        }
    }

    fn append(&mut self, captured: &[u32]) -> (recorded: (usize, Vec<(usize, usize)>))
        requires
            layers_wf(old(self)@),
            old(self).open == Some(0usize),
        ensures
            final(self)@ == recorded_into(old(self)@, captured@),
            recorded.0 == smaller(captured@.len() as int, old(self)@.capacity - old(self)@.written[0]),
            forall|index: int|
                0 <= index < recorded.1@.len() ==> #[trigger] recorded.1@[index].0 + recorded.1@[index].1
                    <= loop_length(final(self)@),
            layers_wf(final(self)@),
    {
        let ghost before = self@;
        let from = self.written[0];
        let room = self.capacity - from;
        let taken = if captured.len() <= room { captured.len() } else { room };
        let mut index: usize = 0;
        while index < taken
            invariant
                index <= taken <= captured@.len(),
                from + taken <= before.capacity,
                self.capacity == before.capacity,
                self.written@ == before.written,
                self.cursor@ == before.cursor,
                self.depth == before.depth,
                self.open == before.open,
                self.stale == before.stale,
                self.samples@.len() == before.samples.len(),
                before.samples.len() == before.capacity * LAYERS,
                forall|cell: int|
                    0 <= cell < self.samples@.len() ==> #[trigger] self.samples@[cell] == if from <= cell < from + index {
                        captured@[cell - from]
                    } else {
                        before.samples[cell]
                    },
            decreases taken - index,
        {
            proof {
                lemma_slot_in_storage(before.capacity, 0, from + index);
            }
            self.samples.set(from + index, captured[index]);
            index = index + 1;
        }
        let length = from + taken;
        self.written.set(0, length);
        self.cursor.set(0, length);
        if self.depth < 1 {
            self.depth = 1;
        }
        assert(self@.samples =~= recorded_into(before, captured@).samples);
        let mut spans: Vec<(usize, usize)> = Vec::new();
        spans.push((from, taken));
        (taken, spans)
    }

    fn lay_round(&mut self, open: usize, captured: &[u32]) -> (recorded: (usize, Vec<(usize, usize)>))
        requires
            layers_wf(old(self)@),
            old(self).open == Some(open),
            open >= 1,
        ensures
            final(self)@ == recorded_into(old(self)@, captured@),
            recorded.0 == captured@.len(),
            forall|index: int|
                0 <= index < recorded.1@.len() ==> #[trigger] recorded.1@[index].0 + recorded.1@[index].1
                    <= loop_length(final(self)@),
            layers_wf(final(self)@),
    {
        let ghost before = self@;
        let cells = self.samples.len();
        let length = self.written[0];
        let start = self.cursor[open];
        proof {
            lemma_slot_in_storage(before.capacity, open as int, 0);
            assert(open * before.capacity + length <= before.capacity * LAYERS) by (nonlinear_arith)
                requires
                    length <= before.capacity,
                    open + 1 <= LAYERS,
                    before.capacity > 0,
            ;
            vstd::arithmetic::div_mod::lemma_small_mod(start as nat, length as nat);
        }
        let base = open * self.capacity;
        let mut at = start;
        let mut index: usize = 0;
        while index < captured.len()
            invariant
                length > 0,
                start < length,
                at < length,
                at == (start + index) % (length as int),
                base == open * before.capacity,
                base + length <= self.samples@.len(),
                cells == self.samples@.len(),
                self.samples@.len() == before.samples.len(),
                self.written@ == before.written,
                self.cursor@ == before.cursor,
                self.capacity == before.capacity,
                self.depth == before.depth,
                self.open == before.open,
                self.stale == before.stale,
                index <= captured@.len(),
                self.samples@ == laid(before.samples, base as int, length as int, start as int, captured@.take(index as int)),
            decreases captured@.len() - index,
        {
            let ghost done = captured@.take(index as int);
            self.samples.set(base + at, captured[index]);
            proof {
                let next = captured@.take(index + 1);
                assert(next.drop_last() =~= done);
                assert(next.last() == captured@[index as int]);
                lemma_wrap_step(start as int, index as int, length as int, at as int);
            }
            at = if at + 1 == length { 0 } else { at + 1 };
            index = index + 1;
        }
        assert(captured@.take(captured@.len() as int) =~= captured@);
        let count = captured.len();
        let held = self.written[open];
        let grown = if count >= length - held { length } else { held + count };
        self.written.set(open, grown);
        self.cursor.set(open, at);
        proof {
            lemma_laid_stays_in_its_layer(before.samples, base as int, length as int, start as int, captured@);
        }
        let mut spans: Vec<(usize, usize)> = Vec::new();
        let first = if count <= length - start { count } else { length - start };
        spans.push((start, first));
        let mut left = count - first;
        while left > 0
            invariant
                length > 0,
                length == loop_length(self@),
                forall|index: int| 0 <= index < spans@.len() ==> #[trigger] spans@[index].0 + spans@[index].1 <= length,
            decreases left,
        {
            let span = if left <= length { left } else { length };
            spans.push((0, span));
            left = left - span;
        }
        (count, spans)
    }

    /// Open a layer over the loop at frame `at`, and report whether there was
    /// one to open: not over a full stack, nor over a loop of no frames. A
    /// position at or past the end wraps into the loop.
    pub fn overdub(&mut self, at: usize) -> (opened: bool)
        requires
            old(self).wf(),
        ensures
            (final(self)@, opened) == overdubbed(old(self)@, at as int),
            final(self).wf(),
    {
        let length = self.written[0];
        if self.depth == LAYERS || length == 0 {
            return false;
        }
        let ghost before = self@;
        let top = self.depth;
        proof {
            if top == 0 {
                assert(before.written[0] == 0);
            }
            vstd::arithmetic::div_mod::lemma_mod_pos_bound(at as int, length as int);
        }
        self.written.set(top, 0);
        self.cursor.set(top, at % length);
        self.depth = top + 1;
        self.open = Some(top);
        proof {
            let after = self@;
            assert(loop_length(after) == loop_length(before));
            assert forall|layer: int| 1 <= layer < after.depth implies #[trigger] after.written[layer]
                <= loop_length(after) && after.cursor[layer] < loop_length(after) by {
                if layer < top {
                    assert(after.written[layer] == before.written[layer]);
                    assert(after.cursor[layer] == before.cursor[layer]);
                }
            }
            assert forall|layer: int| after.depth <= layer < LAYERS implies #[trigger] after.written[layer] == 0
                && after.cursor[layer] == 0 by {
                assert(after.written[layer] == before.written[layer]);
                assert(after.cursor[layer] == before.cursor[layer]);
            }
            assert(layers_wf(after));
        }
        true
    }

    /// Take the most recent overdub off the loop, and report whether there
    /// was one to take. The take is never undone, and no layer is left open.
    pub fn undo(&mut self) -> (undid: bool)
        requires
            old(self).wf(),
        ensures
            (final(self)@, undid) == undone(old(self)@),
            final(self).wf(),
    {
        if self.depth < 2 {
            return false;
        }
        let ghost before = self@;
        let top = self.depth - 1;
        self.written.set(top, 0);
        self.cursor.set(top, 0);
        self.depth = top;
        self.open = None;
        self.stale = Some(0);
        proof {
            let after = self@;
            assert(loop_length(after) == loop_length(before));
            assert forall|layer: int| 1 <= layer < after.depth implies #[trigger] after.written[layer]
                <= loop_length(after) && after.cursor[layer] < loop_length(after) by {
                assert(after.written[layer] == before.written[layer]);
                assert(after.cursor[layer] == before.cursor[layer]);
            }
            assert forall|layer: int| after.depth <= layer < LAYERS implies #[trigger] after.written[layer] == 0
                && after.cursor[layer] == 0 by {
                if layer > top {
                    assert(after.written[layer] == before.written[layer]);
                    assert(after.cursor[layer] == before.cursor[layer]);
                }
            }
            assert(layers_wf(after));
        }
        true
    }

    /// Empty the loop, keeping the storage: nothing recorded, the take open.
    pub fn clear(&mut self)
        requires
            old(self).wf(),
        ensures
            final(self)@.capacity == old(self)@.capacity,
            final(self)@.samples == old(self)@.samples,
            final(self)@.written == empty_layers(old(self)@.capacity).written,
            final(self)@.cursor == empty_layers(old(self)@.capacity).cursor,
            final(self)@.depth == 0,
            final(self)@.open == Some(0usize),
            final(self)@.stale is None,
            final(self).wf(),
    {
        let ghost before = self@;
        let mut layer: usize = 0;
        while layer < LAYERS
            invariant
                self.written@.len() == LAYERS,
                self.cursor@.len() == LAYERS,
                self.capacity == before.capacity,
                self.samples@ == before.samples,
                layer <= LAYERS,
                forall|done: int| 0 <= done < layer ==> #[trigger] self.written@[done] == 0usize,
                forall|done: int| 0 <= done < layer ==> #[trigger] self.cursor@[done] == 0usize,
            decreases LAYERS - layer,
        {
            self.written.set(layer, 0);
            self.cursor.set(layer, 0);
            layer = layer + 1;
        }
        assert(self.written@ =~= empty_layers(before.capacity).written);
        assert(self.cursor@ =~= empty_layers(before.capacity).cursor);
        self.depth = 0;
        self.open = Some(0);
        self.stale = None;
    }

    /// Whether layer `layer` sounds at frame `frame`.
    pub fn covers(&self, layer: usize, frame: usize) -> (sounds: bool)
        requires
            self.wf(),
        ensures
            sounds == covers(self@, layer as int, frame as int),
    {
        if layer >= self.depth {
            return false;
        }
        let cursor = self.cursor[layer];
        let recorded = self.written[layer];
        let length = self.written[0];
        let before = if cursor <= recorded { cursor } else { recorded };
        let past = recorded - before;
        (cursor - before <= frame && frame < cursor) || (length - past <= frame && frame < length)
    }

    /// The bits of what layer `layer` holds at frame `frame`.
    pub fn sample_bits(&self, layer: usize, frame: usize) -> (bits: u32)
        requires
            self.wf(),
            layer < LAYERS,
            frame < self@.capacity,
        ensures
            bits == self@.samples[slot(self@.capacity, layer as int, frame as int)],
    {
        let cells = self.samples.len();
        proof {
            lemma_slot_in_storage(self.capacity as int, layer as int, frame as int);
        }
        self.samples[layer * self.capacity + frame]
    }

    /// Where a loop played from frame `from` starts: there, or at its start
    /// where `from` is at or past its end; nowhere for an empty loop.
    pub fn play_from(&self, from: usize) -> (playhead: Option<usize>)
        requires
            self.wf(),
        ensures
            match playhead {
                Some(at) => loop_length(self@) > 0 && at == if from < loop_length(self@) {
                    from as int
                } else {
                    0
                },
                None => loop_length(self@) == 0,
            },
    {
        let length = self.len();
        if length == 0 {
            return None;
        }
        Some(if from < length { from } else { 0 })
    }

    /// Where the playhead is left after `frames` frames played from
    /// `playhead`, the loop repeating as often as they need.
    pub fn played_to(&self, playhead: usize, frames: usize) -> (after: usize)
        requires
            self.wf(),
            loop_length(self@) > 0,
            playhead < loop_length(self@),
        ensures
            after == (playhead + frames) % loop_length(self@),
    {
        let length = self.len();
        let cells = self.samples.len();
        proof {
            assert(length * 2 <= cells) by (nonlinear_arith)
                requires
                    length <= self@.capacity,
                    cells == self@.capacity * LAYERS,
            ;
            vstd::arithmetic::div_mod::lemma_mod_pos_bound(frames as int, length as int);
            vstd::arithmetic::div_mod::lemma_add_mod_noop_right(playhead as int, frames as int, length as int);
        }
        (playhead + frames % length) % length
    }

    /// How many frames of a block `wanted` long the loop fills from frame
    /// `from` without repeating: up to its end.
    pub fn mix_window(&self, wanted: usize, from: usize) -> (frames: usize)
        requires
            self.wf(),
        ensures
            frames == smaller(wanted as int, if from <= loop_length(self@) {
                loop_length(self@) - from
            } else {
                0
            }),
    {
        let length = self.len();
        let left = if from <= length { length - from } else { 0 };
        if wanted <= left { wanted } else { left }
    }

    /// Whether the summary of the loop still shows an undone layer somewhere.
    pub fn is_stale(&self) -> (stale: bool)
        ensures
            stale == self@.stale is Some,
    {
        self.stale.is_some()
    }

    /// Where up to `frames` of the summary is to be repainted from the layers
    /// that remain, and how many frames, moving on past them; nothing where
    /// nothing was undone.
    pub fn resummarise(&mut self, frames: usize) -> (span: Option<(usize, usize)>)
        requires
            old(self).wf(),
        ensures
            match old(self)@.stale {
                None => span is None && final(self)@ == old(self)@,
                Some(from) => {
                    let taken = smaller(frames as int, loop_length(old(self)@) - from);
                    &&& span == Some((from, taken as usize))
                    &&& final(self)@ == LayersView {
                        stale: if from + taken < loop_length(old(self)@) {
                            Some((from + taken) as usize)
                        } else {
                            None
                        },
                        ..old(self)@
                    }
                },
            },
            final(self).wf(),
    {
        let from = match self.stale {
            Some(from) => from,
            None => {
                return None;
            },
        };
        let length = self.written[0];
        let left = length - from;
        let taken = if frames <= left { frames } else { left };
        let covered = from + taken;
        self.stale = if covered < length { Some(covered) } else { None };
        Some((from, taken))
    }
}

/// Undoing an overdub gives back exactly the loop it was laid over: whatever
/// was recorded into it, the loop is as long as it was, as deep, and every
/// layer sounds where it did with what it held.
pub proof fn lemma_undo_gives_back(view: LayersView, at: int, captured: Seq<u32>)
    requires
        layers_wf(view),
        overdubbed(view, at).1,
    ensures
        undone(recorded_into(overdubbed(view, at).0, captured)).1,
        loop_length(undone(recorded_into(overdubbed(view, at).0, captured)).0) == loop_length(view),
        undone(recorded_into(overdubbed(view, at).0, captured)).0.depth == view.depth,
        forall|layer: int, frame: int|
            0 <= frame < view.capacity ==> #[trigger] heard(
                undone(recorded_into(overdubbed(view, at).0, captured)).0,
                layer,
                frame,
            ) == heard(view, layer, frame),
{
    let opened = overdubbed(view, at).0;
    let top = view.depth;
    let length = loop_length(view);
    assert(opened.open == Some(top as usize));
    assert(top >= 1);
    let filled = recorded_into(opened, captured);
    let base = slot(view.capacity, top, 0);
    lemma_slot_in_storage(view.capacity, top, 0);
    assert(base + length <= view.capacity * LAYERS) by (nonlinear_arith)
        requires
            base == top * view.capacity,
            length <= view.capacity,
            top + 1 <= LAYERS,
            view.capacity > 0,
    ;
    lemma_laid_stays_in_its_layer(view.samples, base, length, opened.cursor[top] as int, captured);
    let back = undone(filled).0;
    assert forall|layer: int, frame: int| 0 <= frame < view.capacity implies #[trigger] heard(back, layer, frame)
        == heard(view, layer, frame) by {
        if 0 <= layer < top {
            assert(back.cursor[layer] == view.cursor[layer]);
            assert(back.written[layer] == view.written[layer]);
            lemma_layers_apart(view.capacity, layer, top, frame, 0);
            lemma_slot_in_storage(view.capacity, layer, frame);
            assert(back.samples[slot(view.capacity, layer, frame)] == view.samples[slot(
                view.capacity,
                layer,
                frame,
            )]);
        }
    }
}

/// An overdub never quietens what it is laid over: whatever is recorded into
/// it, the loop is as long as it was, and every layer beneath it sounds where
/// it did with what it held.
pub proof fn lemma_overdub_keeps_below(view: LayersView, at: int, captured: Seq<u32>)
    requires
        layers_wf(view),
        overdubbed(view, at).1,
    ensures
        loop_length(recorded_into(overdubbed(view, at).0, captured)) == loop_length(view),
        forall|layer: int, frame: int|
            0 <= layer < view.depth && 0 <= frame < view.capacity ==> #[trigger] heard(
                recorded_into(overdubbed(view, at).0, captured),
                layer,
                frame,
            ) == heard(view, layer, frame),
{
    let opened = overdubbed(view, at).0;
    let top = view.depth;
    let length = loop_length(view);
    assert(opened.open == Some(top as usize));
    assert(top >= 1);
    let filled = recorded_into(opened, captured);
    let base = slot(view.capacity, top, 0);
    lemma_slot_in_storage(view.capacity, top, 0);
    assert(base + length <= view.capacity * LAYERS) by (nonlinear_arith)
        requires
            base == top * view.capacity,
            length <= view.capacity,
            top + 1 <= LAYERS,
            view.capacity > 0,
    ;
    lemma_laid_stays_in_its_layer(view.samples, base, length, opened.cursor[top] as int, captured);
    assert forall|layer: int, frame: int| 0 <= layer < view.depth && 0 <= frame < view.capacity implies #[trigger] heard(
        filled,
        layer,
        frame,
    ) == heard(view, layer, frame) by {
        assert(filled.cursor[layer] == view.cursor[layer]);
        assert(filled.written[layer] == view.written[layer]);
        lemma_layers_apart(view.capacity, layer, top, frame, 0);
        lemma_slot_in_storage(view.capacity, layer, frame);
        assert(filled.samples[slot(view.capacity, layer, frame)] == view.samples[slot(
            view.capacity,
            layer,
            frame,
        )]);
    }
}

} // verus!
