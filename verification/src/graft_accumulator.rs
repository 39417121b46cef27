//! The shard accumulator. Commitments stream in position order; each shard of
//! 2^16 positions is buffered until either an owned note appears in it (what is
//! buffered is then built at once) or it closes free of notes (the caller asks
//! for the graft verdict). The shard that is open at the end is always built.
use crate::graft::Retention;
use vstd::prelude::*;

verus! {

/// Positions in one shard, in both pools.
pub const SHARD_SPAN: u64 = 65_536;

/// The first position past the last shard whose end fits a `u64`.
pub const POSITION_LIMIT: u64 = 0xffff_ffff_ffff_0000;

/// The shard that holds a position.
pub open spec fn shard_of_spec(position: int) -> int {
    position / 65_536
}

/// The shard that holds a position.
pub fn shard_of(position: u64) -> (r: u64)
    ensures
        r == shard_of_spec(position as int),
{
    position / SHARD_SPAN
}

/// One accumulated commitment: its absolute position, its hash, its retention.
pub type AccRow<H> = (u64, H, Retention);

/// What the caller must do with a slice of the stream, in emission order.
#[derive(Debug, PartialEq)]
pub enum FeedAction<H> {
    /// Build these rows now.
    Build(Vec<AccRow<H>>),
    /// A shard closed free of notes: ask the graft verdict for it. `rows` is all
    /// that was seen of it; without a server root the caller builds these.
    CloseCleanShard { shard_index: u64, rows: Vec<AccRow<H>> },
    /// Persist these new rows into the buffer table.
    Buffer(Vec<AccRow<H>>),
}

/// A [`FeedAction`] over mathematical sequences.
pub enum ActionModel<H> {
    Build(Seq<AccRow<H>>),
    CloseCleanShard { shard_index: int, rows: Seq<AccRow<H>> },
    Buffer(Seq<AccRow<H>>),
}

impl<H> View for FeedAction<H> {
    type V = ActionModel<H>;

    open spec fn view(&self) -> ActionModel<H> {
        match self {
            FeedAction::Build(rows) => ActionModel::Build(rows@),
            FeedAction::CloseCleanShard { shard_index, rows } => ActionModel::CloseCleanShard {
                shard_index: *shard_index as int,
                rows: rows@,
            },
            FeedAction::Buffer(rows) => ActionModel::Buffer(rows@),
        }
    }
}

/// The actions of a vector, as models.
pub open spec fn action_models<H>(actions: Seq<FeedAction<H>>) -> Seq<ActionModel<H>> {
    actions.map_values(|a: FeedAction<H>| a@)
}

struct OpenShard<H> {
    index: u64,
    /// All rows of the shard while it is buffered.
    rows: Vec<AccRow<H>>,
    passthrough: bool,
}

/// The shard that the stream is in: its rows so far while it is buffered, none
/// once it passes through.
pub struct OpenModel<H> {
    pub index: int,
    pub rows: Seq<AccRow<H>>,
    pub passthrough: bool,
}

/// The accumulator as a model: the next position and the open shard.
pub struct AccumulatorModel<H> {
    pub next_position: int,
    pub open: Option<OpenModel<H>>,
}

/// Per pool and per range. Positions arrive contiguously.
pub struct ShardAccumulator<H> {
    next_position: u64,
    open: Option<OpenShard<H>>,
}

/// The rows of a slice of the stream that starts at `position`.
pub open spec fn rows_at<H>(position: int, items: Seq<(H, Retention)>) -> Seq<AccRow<H>> {
    Seq::new(items.len(), |i: int| ((position + i) as u64, items[i].0, items[i].1))
}

/// Whether one of the note positions lies in `from..to`.
pub open spec fn has_note(notes: Seq<u64>, from: int, to: int) -> bool {
    exists|i: int| 0 <= i < notes.len() && from <= #[trigger] notes[i] < to
}

/// A shard of which nothing was seen yet.
pub open spec fn fresh_shard<H>(index: int) -> OpenModel<H> {
    OpenModel { index, rows: Seq::empty(), passthrough: false }
}

/// The shard that a stream from `start_position` on resumes: it passes through where it was
/// built before, else it goes on with the rows that were persisted for it.
pub open spec fn seeded<H>(
    start_position: int,
    resume_rows: Seq<AccRow<H>>,
    built: bool,
) -> OpenModel<H> {
    OpenModel {
        index: shard_of_spec(start_position),
        rows: if built {
            Seq::empty()
        } else {
            resume_rows
        },
        passthrough: built,
    }
}

/// The open shard once the stream has reached shard `shard`.
pub open spec fn entered<H>(open: Option<OpenModel<H>>, shard: int) -> OpenModel<H> {
    match open {
        Some(o) if o.index == shard => o,
        _ => fresh_shard(shard),
    }
}

/// The verdict asked for when the stream leaves a shard that is still buffered.
pub open spec fn closing<H>(open: Option<OpenModel<H>>, shard: int) -> Seq<ActionModel<H>> {
    match open {
        Some(o) if o.index != shard && !o.passthrough => seq![
            ActionModel::CloseCleanShard { shard_index: o.index, rows: o.rows },
        ],
        _ => Seq::empty(),
    }
}

/// What happens to one shard's span of the stream: built where the shard passes
/// through, built with all that is buffered where it holds a note, else buffered.
pub open spec fn span_step<H>(cur: OpenModel<H>, span: Seq<AccRow<H>>, noted: bool) -> (
    OpenModel<H>,
    ActionModel<H>,
) {
    if cur.passthrough {
        (cur, ActionModel::Build(span))
    } else if noted {
        (
            OpenModel { index: cur.index, rows: Seq::empty(), passthrough: true },
            ActionModel::Build(cur.rows + span),
        )
    } else {
        (
            OpenModel { index: cur.index, rows: cur.rows + span, passthrough: false },
            ActionModel::Buffer(span),
        )
    }
}

/// The end of the span of `position..end` that lies in the shard of `position`.
pub open spec fn span_end(position: int, end: int) -> int {
    let shard_end = (shard_of_spec(position) + 1) * 65_536;
    if shard_end < end {
        shard_end
    } else {
        end
    }
}

/// The open shard and the actions after the rows `rows`, which start at
/// `position`, have been taken shard by shard.
pub open spec fn feed_spec<H>(
    open: Option<OpenModel<H>>,
    position: int,
    rows: Seq<AccRow<H>>,
    notes: Seq<u64>,
) -> (Option<OpenModel<H>>, Seq<ActionModel<H>>)
    decreases rows.len(),
{
    if rows.len() == 0 {
        (open, Seq::empty())
    } else {
        let shard = shard_of_spec(position);
        let stop = span_end(position, position + rows.len());
        let n = stop - position;
        let (cur, action) = span_step(
            entered(open, shard),
            rows.take(n),
            has_note(notes, position, stop),
        );
        let rest = feed_spec(Some(cur), stop, rows.skip(n), notes);
        (rest.0, closing(open, shard) + seq![action] + rest.1)
    }
}

impl<H> OpenShard<H> {
    spec fn model(self) -> OpenModel<H> {
        OpenModel { index: self.index as int, rows: self.rows@, passthrough: self.passthrough }
    }
}

spec fn open_model<H>(open: Option<OpenShard<H>>) -> Option<OpenModel<H>> {
    match open {
        Some(o) => Some(o.model()),
        None => None,
    }
}

impl<H> View for ShardAccumulator<H> {
    type V = AccumulatorModel<H>;

    closed spec fn view(&self) -> AccumulatorModel<H> {
        AccumulatorModel { next_position: self.next_position as int, open: open_model(self.open) }
    }
}

impl<H: Copy> ShardAccumulator<H> {
    /// `resume_rows`: rows already persisted for the shard that holds
    /// `start_position`. `store_has_internals`: the shard store already holds
    /// data for that shard, so it was built before and stays passthrough; such rows
    /// are stale then, and the caller's to delete.
    pub fn seed(start_position: u64, resume_rows: Vec<AccRow<H>>, store_has_internals: bool) -> (r:
        Self)
        requires
            forall|i: int|
                0 <= i < resume_rows@.len() ==> shard_of_spec(#[trigger] resume_rows@[i].0 as int)
                    == shard_of_spec(start_position as int),
        ensures
            r@.next_position == start_position,
            r@.open == Some(
                seeded(start_position as int, resume_rows@, store_has_internals),
            ),
    {
        let index: u64 = shard_of(start_position);
        let rows: Vec<AccRow<H>> = if store_has_internals {
            Vec::new()
        } else {
            resume_rows
        };
        let r = ShardAccumulator {
            next_position: start_position,
            open: Some(OpenShard { index, rows, passthrough: store_has_internals }),
        };
        assert(r@.open->Some_0.rows =~= seeded(
            start_position as int,
            resume_rows@,
            store_has_internals,
        ).rows);
        r
    }

    /// Feeds one contiguous slice of the commitment stream together with the
    /// positions of the owned notes found in it.
    pub fn feed(
        &mut self,
        start_position: u64,
        items: Vec<(H, Retention)>,
        note_positions: &[u64],
    ) -> (actions: Vec<FeedAction<H>>)
        requires
            start_position == old(self)@.next_position,
            start_position + items@.len() <= POSITION_LIMIT,
        ensures
            final(self)@.next_position == start_position + items@.len(),
            (final(self)@.open, action_models(actions@)) == feed_spec(
                old(self)@.open,
                start_position as int,
                rows_at(start_position as int, items@),
                note_positions@,
            ),
    {
        let ghost rows = rows_at(start_position as int, items@);
        let ghost open0 = self@.open;
        let ghost goal = feed_spec(open0, start_position as int, rows, note_positions@);
        let mut actions: Vec<FeedAction<H>> = Vec::new();
        let mut pos: u64 = start_position;
        let mut taken: usize = 0;
        let total: usize = items.len();
        let end: u64 = start_position + total as u64;
        assert(rows.skip(0) =~= rows);
        assert(action_models(actions@) =~= Seq::empty());
        proof {
            let rest = feed_spec(open0, start_position as int, rows, note_positions@);
            assert(Seq::<ActionModel<H>>::empty() + rest.1 =~= rest.1);
        }
        while pos < end
            invariant
                start_position <= pos <= end <= POSITION_LIMIT,
                total == items@.len(),
                end == start_position + total,
                taken == pos - start_position,
                rows == rows_at(start_position as int, items@),
                goal == feed_spec(open0, start_position as int, rows, note_positions@),
                ({
                    let rest = feed_spec(
                        self@.open,
                        pos as int,
                        rows.skip(taken as int),
                        note_positions@,
                    );
                    goal == (rest.0, action_models(actions@) + rest.1)
                }),
            decreases end - pos,
        {
            let shard: u64 = shard_of(pos);
            let ghost open_before = self@.open;
            let ghost acts_before = action_models(actions@);
            let ghost left = rows.skip(taken as int);
            // The stream has left the open shard.
            match self.open.take() {
                Some(o) => {
                    if o.index != shard {
                        if !o.passthrough {
                            actions.push(
                                FeedAction::CloseCleanShard { shard_index: o.index, rows: o.rows },
                            );
                        }
                        self.open =
                        Some(OpenShard { index: shard, rows: Vec::new(), passthrough: false });
                    } else {
                        self.open = Some(o);
                    }
                },
                None => {
                    self.open =
                    Some(OpenShard { index: shard, rows: Vec::new(), passthrough: false });
                },
            }
            assert(self@.open == Some(entered(open_before, shard as int)));
            assert(action_models(actions@) =~= acts_before + closing(open_before, shard as int));
            // This shard's span of the feed.
            let shard_end: u64 = (shard + 1) * SHARD_SPAN;
            let stop: u64 = if shard_end < end {
                shard_end
            } else {
                end
            };
            assert(stop == span_end(pos as int, end as int));
            let span: Vec<AccRow<H>> = collect_span(&items, start_position, taken, pos, stop);
            assert(span@ =~= left.take(stop - pos));
            let noted: bool = any_note(note_positions, pos, stop);
            let ghost cur = entered(open_before, shard as int);
            let ghost acts_mid = action_models(actions@);
            let mut open: OpenShard<H> = self.open.take().unwrap();
            if open.passthrough {
                actions.push(FeedAction::Build(span));
            } else if noted {
                // Everything buffered and this span are built in this call.
                let mut built: Vec<AccRow<H>> = open.rows;
                append_rows(&mut built, &span);
                open = OpenShard { index: open.index, rows: Vec::new(), passthrough: true };
                actions.push(FeedAction::Build(built));
            } else {
                append_rows(&mut open.rows, &span);
                actions.push(FeedAction::Buffer(span));
            }
            self.open = Some(open);
            proof {
                let step = span_step(cur, left.take(stop - pos), noted);
                assert(self@.open->Some_0.rows =~= step.0.rows);
                assert(self@.open == Some(step.0));
                assert(action_models(actions@) =~= acts_mid.push(actions@.last()@));
                assert(action_models(actions@) =~= acts_before + (closing(
                    open_before,
                    shard as int,
                ) + seq![step.1]));
                assert(left.skip(stop - pos) =~= rows.skip(taken + (stop - pos)));
                let rest = feed_spec(
                    self@.open,
                    stop as int,
                    left.skip(stop - pos),
                    note_positions@,
                );
                assert(acts_before + (closing(open_before, shard as int) + seq![step.1] + rest.1)
                    =~= action_models(actions@) + rest.1);
            }
            taken = taken + (stop - pos) as usize;
            pos = stop;
        }
        assert(rows.skip(taken as int) =~= Seq::empty());
        assert(action_models(actions@) + Seq::empty() =~= action_models(actions@));
        self.next_position = end;
        actions
    }

    /// The end of the range: the open shard never grafts. The rows to build, if
    /// any are pending.
    pub fn finish(&mut self) -> (r: Option<FeedAction<H>>)
        ensures
            final(self)@.next_position == old(self)@.next_position,
            final(self)@.open is None,
            r is Some <==> (old(self)@.open matches Some(o) && !o.passthrough && o.rows.len() > 0),
            r matches Some(a) ==> a@ == ActionModel::Build(old(self)@.open->Some_0.rows),
    {
        match self.open.take() {
            Some(o) => {
                if !o.passthrough && o.rows.len() > 0 {
                    Some(FeedAction::Build(o.rows))
                } else {
                    None
                }
            },
            None => None,
        }
    }
}

/// The rows that wait in the open shard.
pub open spec fn pending<H>(open: Option<OpenModel<H>>) -> Seq<AccRow<H>> {
    match open {
        Some(o) if !o.passthrough => o.rows,
        _ => Seq::empty(),
    }
}

/// The rows that an action takes out of the buffer for good.
pub open spec fn settled_by<H>(a: ActionModel<H>) -> Seq<AccRow<H>> {
    match a {
        ActionModel::Build(rows) => rows,
        ActionModel::CloseCleanShard { rows, .. } => rows,
        ActionModel::Buffer(_) => Seq::empty(),
    }
}

/// The rows that actions build or hand to the verdict, in order.
pub open spec fn settled<H>(actions: Seq<ActionModel<H>>) -> Seq<AccRow<H>>
    decreases actions.len(),
{
    if actions.len() == 0 {
        Seq::empty()
    } else {
        settled_by(actions[0]) + settled(actions.skip(1))
    }
}

/// Whether the rows stand at `position` and the positions after it.
pub open spec fn contiguous_from<H>(rows: Seq<AccRow<H>>, position: int) -> bool {
    forall|i: int| 0 <= i < rows.len() ==> (#[trigger] rows[i]).0 == position + i
}

/// Whether all rows lie in one shard.
pub open spec fn rows_in_shard<H>(rows: Seq<AccRow<H>>, shard: int) -> bool {
    forall|i: int| 0 <= i < rows.len() ==> shard_of_spec((#[trigger] rows[i]).0 as int) == shard
}

/// The invariant of the accumulator: the open shard is not past the stream, its
/// rows lie in it and end where the stream goes on, and a shard that passes
/// through holds none.
pub open spec fn placed<H>(open: Option<OpenModel<H>>, position: int) -> bool {
    match open {
        Some(o) => {
            &&& o.index <= shard_of_spec(position)
            &&& rows_in_shard(o.rows, o.index)
            &&& contiguous_from(o.rows, position - o.rows.len())
            &&& o.passthrough ==> o.rows.len() == 0
        },
        None => true,
    }
}

/// Whether one of the note positions in `from..to` lies in a shard.
pub open spec fn noted_in(notes: Seq<u64>, from: int, to: int, shard: int) -> bool {
    exists|i: int|
        0 <= i < notes.len() && from <= #[trigger] notes[i] < to && shard_of_spec(notes[i] as int)
            == shard
}

/// What an action promises within a feed of `start..end` with these notes.
pub open spec fn action_ok<H>(
    a: ActionModel<H>,
    start: int,
    end: int,
    notes: Seq<u64>,
) -> bool {
    match a {
        ActionModel::Build(rows) => rows.len() > 0 && contiguous_from(rows, rows[0].0 as int),
        ActionModel::CloseCleanShard { shard_index, rows } => {
            &&& rows_in_shard(rows, shard_index)
            &&& !noted_in(notes, start, end, shard_index)
        },
        ActionModel::Buffer(rows) => rows.len() > 0 && contiguous_from(rows, rows[0].0 as int)
            && start <= rows[0].0 && rows[0].0 + rows.len() <= end,
    }
}

proof fn lemma_settled_concat<H>(a: Seq<ActionModel<H>>, b: Seq<ActionModel<H>>)
    ensures
        settled(a + b) == settled(a) + settled(b),
    decreases a.len(),
{
    if a.len() == 0 {
        assert(a + b =~= b);
    } else {
        lemma_settled_concat(a.skip(1), b);
        assert((a + b).skip(1) =~= a.skip(1) + b);
        assert(settled(a + b) =~= settled(a) + settled(b));
    }
}

proof fn lemma_settled_one<H>(a: ActionModel<H>)
    ensures
        settled(seq![a]) == settled_by(a),
{
    assert(seq![a].skip(1) =~= Seq::empty());
    assert(settled(seq![a].skip(1)) == Seq::<AccRow<H>>::empty());
    assert(settled(seq![a]) =~= settled_by(a));
}

/// The first span of a feed keeps the invariant, and its action is in order.
proof fn lemma_first_span<H>(
    open: Option<OpenModel<H>>,
    position: int,
    rows: Seq<AccRow<H>>,
    noted: bool,
)
    requires
        0 <= position,
        rows.len() > 0,
        placed(open, position),
        contiguous_from(rows, position),
    ensures
        ({
            let shard = shard_of_spec(position);
            let stop = span_end(position, position + rows.len());
            let n = stop - position;
            let (next, action) = span_step(entered(open, shard), rows.take(n), noted);
            &&& 0 < n <= rows.len()
            &&& placed(Some(next), stop)
            &&& contiguous_from(rows.skip(n), stop)
            &&& !(action is CloseCleanShard)
            &&& action matches ActionModel::Build(b) ==> b.len() > 0 && contiguous_from(
                b,
                b[0].0 as int,
            )
            &&& action matches ActionModel::Buffer(b) ==> b.len() > 0 && contiguous_from(
                b,
                b[0].0 as int,
            ) && b[0].0 == position && b.len() == n
        }),
{
    let shard = shard_of_spec(position);
    let stop = span_end(position, position + rows.len());
    let n = stop - position;
    let span = rows.take(n);
    let cur = entered(open, shard);
    let left = rows.skip(n);
    assert forall|i: int| 0 <= i < span.len() implies shard_of_spec((#[trigger] span[i]).0 as int)
        == shard && span[i].0 == position + i by {
        assert(span[i] == rows[i]);
    }
    assert forall|i: int| 0 <= i < left.len() implies (#[trigger] left[i]).0 == stop + i by {
        assert(left[i] == rows[n + i]);
    }
    let joined = cur.rows + span;
    assert forall|i: int| 0 <= i < joined.len() implies (#[trigger] joined[i]).0 == position
        - cur.rows.len() + i && shard_of_spec(joined[i].0 as int) == shard by {
        if i < cur.rows.len() {
            assert(joined[i] == cur.rows[i]);
        } else {
            assert(joined[i] == span[i - cur.rows.len()]);
        }
    }
    assert(joined[0].0 == position - cur.rows.len());
    assert(span[0].0 == position);
}

/// Whether the open shard is not past the stream.
pub open spec fn behind<H>(open: Option<OpenModel<H>>, position: int) -> bool {
    open matches Some(o) ==> o.index <= shard_of_spec(position)
}

/// The first span of a feed of `len` rows holds a row and ends in its shard; where the feed
/// goes on, it goes on in the next one.
proof fn lemma_span_end(position: int, len: nat)
    requires
        0 <= position,
        len > 0,
    ensures
        ({
            let stop = span_end(position, position + len);
            &&& position < stop <= position + len
            &&& shard_of_spec(stop - 1) == shard_of_spec(position)
            &&& shard_of_spec(position) <= shard_of_spec(stop)
            &&& stop < position + len ==> shard_of_spec(stop) == shard_of_spec(position) + 1
        }),
{
}

/// One span loses no row.
proof fn lemma_span_conserves<H>(
    open: Option<OpenModel<H>>,
    shard: int,
    span: Seq<AccRow<H>>,
    noted: bool,
)
    ensures
        ({
            let (next, action) = span_step(entered(open, shard), span, noted);
            settled(closing(open, shard) + seq![action]) + pending(Some(next)) == pending(open)
                + span
        }),
{
    let cur = entered(open, shard);
    let (next, action) = span_step(cur, span, noted);
    let closed = closing(open, shard);
    lemma_settled_concat(closed, seq![action]);
    lemma_settled_one(action);
    if closed.len() > 0 {
        let o = open->Some_0;
        lemma_settled_one(ActionModel::CloseCleanShard { shard_index: o.index, rows: o.rows });
    }
    assert(settled(closed) + pending(Some(cur)) =~= pending(open));
    assert(settled_by(action) + pending(Some(next)) =~= pending(Some(cur)) + span);
    assert(settled(closed) + settled_by(action) + pending(Some(next)) =~= settled(closed) + (
    pending(Some(cur)) + span));
    assert(settled(closed) + (pending(Some(cur)) + span) =~= pending(open) + span);
}

/// What holds of a first part and of the rest holds of both.
proof fn lemma_regroup<A>(
    head: Seq<A>,
    between: Seq<A>,
    open: Seq<A>,
    span: Seq<A>,
    tail: Seq<A>,
    after: Seq<A>,
    left: Seq<A>,
)
    requires
        head + between == open + span,
        tail + after == between + left,
    ensures
        (head + tail) + after == open + (span + left),
{
    assert((head + tail) + after =~= head + (tail + after));
    assert(head + (between + left) =~= (head + between) + left);
    assert((open + span) + left =~= open + (span + left));
}

/// Feeding loses no row and repeats none: what the actions build or hand to the
/// verdict, and then what still waits, is what waited before and then the fed
/// rows, in order.
#[verifier::spinoff_prover]
pub proof fn law_feed_conserves_rows<H>(
    open: Option<OpenModel<H>>,
    position: int,
    rows: Seq<AccRow<H>>,
    notes: Seq<u64>,
)
    requires
        0 <= position,
    ensures
        settled(feed_spec(open, position, rows, notes).1) + pending(
            feed_spec(open, position, rows, notes).0,
        ) == pending(open) + rows,
    decreases rows.len(),
{
    let out = feed_spec(open, position, rows, notes);
    if rows.len() == 0 {
        assert(settled(out.1) + pending(open) =~= pending(open) + rows);
    } else {
        let shard = shard_of_spec(position);
        let stop = span_end(position, position + rows.len());
        let n = stop - position;
        let noted = has_note(notes, position, stop);
        lemma_span_end(position, rows.len());
        let span = rows.take(n);
        let left = rows.skip(n);
        let (next, action) = span_step(entered(open, shard), span, noted);
        law_feed_conserves_rows(Some(next), stop, left, notes);
        let rest = feed_spec(Some(next), stop, left, notes);
        let head = closing(open, shard) + seq![action];
        lemma_span_conserves(open, shard, span, noted);
        lemma_settled_concat(head, rest.1);
        lemma_regroup(
            settled(head),
            pending(Some(next)),
            pending(open),
            span,
            settled(rest.1),
            pending(rest.0),
            left,
        );
        assert(span + left =~= rows);
    }
}

/// Feeding keeps the invariant of the accumulator.
pub proof fn law_feed_keeps_placed<H>(
    open: Option<OpenModel<H>>,
    position: int,
    rows: Seq<AccRow<H>>,
    notes: Seq<u64>,
)
    requires
        0 <= position,
        placed(open, position),
        contiguous_from(rows, position),
    ensures
        placed(feed_spec(open, position, rows, notes).0, position + rows.len()),
    decreases rows.len(),
{
    if rows.len() > 0 {
        let stop = span_end(position, position + rows.len());
        let noted = has_note(notes, position, stop);
        lemma_first_span(open, position, rows, noted);
        let (next, _action) = span_step(
            entered(open, shard_of_spec(position)),
            rows.take(stop - position),
            noted,
        );
        law_feed_keeps_placed(Some(next), stop, rows.skip(stop - position), notes);
    }
}

/// A shard is only handed to the verdict with rows of its own, and never when the
/// feed found a note in it. What is to be persisted are rows of this feed only.
/// Rows to build are contiguous.
pub proof fn law_feed_actions<H>(
    open: Option<OpenModel<H>>,
    position: int,
    rows: Seq<AccRow<H>>,
    notes: Seq<u64>,
    i: int,
)
    requires
        0 <= position,
        placed(open, position),
        contiguous_from(rows, position),
        0 <= i < feed_spec(open, position, rows, notes).1.len(),
    ensures
        action_ok(
            feed_spec(open, position, rows, notes).1[i],
            position,
            position + rows.len(),
            notes,
        ),
    decreases rows.len(),
{
    let out = feed_spec(open, position, rows, notes);
    let end = position + rows.len();
    let shard = shard_of_spec(position);
    let stop = span_end(position, end);
    let n = stop - position;
    let noted = has_note(notes, position, stop);
    lemma_first_span(open, position, rows, noted);
    let (next, action) = span_step(entered(open, shard), rows.take(n), noted);
    let left = rows.skip(n);
    let rest = feed_spec(Some(next), stop, left, notes);
    let c = closing(open, shard).len();
    lemma_closed_is_clean(open, position, rows, notes, i);
    if i < c {
        assert(out.1[i] == closing(open, shard)[i]);
    } else if i == c {
        assert(out.1[i] == action);
    } else {
        assert(out.1[i] == rest.1[i - c - 1]);
        law_feed_actions(Some(next), stop, left, notes, i - c - 1);
    }
}

/// A feed closes no shard that it found a note in.
proof fn lemma_closed_is_clean<H>(
    open: Option<OpenModel<H>>,
    position: int,
    rows: Seq<AccRow<H>>,
    notes: Seq<u64>,
    i: int,
)
    requires
        0 <= position,
        behind(open, position),
        0 <= i < feed_spec(open, position, rows, notes).1.len(),
    ensures
        feed_spec(open, position, rows, notes).1[i] matches ActionModel::CloseCleanShard {
            shard_index,
            ..
        } ==> !noted_in(notes, position, position + rows.len(), shard_index),
    decreases rows.len(),
{
    let out = feed_spec(open, position, rows, notes);
    let end = position + rows.len();
    let shard = shard_of_spec(position);
    let stop = span_end(position, end);
    let n = stop - position;
    let noted = has_note(notes, position, stop);
    lemma_span_end(position, rows.len());
    let (next, action) = span_step(entered(open, shard), rows.take(n), noted);
    let left = rows.skip(n);
    let rest = feed_spec(Some(next), stop, left, notes);
    let c = closing(open, shard).len();
    if out.1[i] is CloseCleanShard {
        let s = out.1[i]->shard_index;
        if i < c {
            assert(out.1[i] == closing(open, shard)[i]);
        } else if i == c {
            assert(out.1[i] == action);
        } else {
            assert(out.1[i] == rest.1[i - c - 1]);
            lemma_closed_is_clean(Some(next), stop, left, notes, i - c - 1);
            lemma_closed_after(Some(next), stop, left, notes, i - c - 1);
        }
        if noted_in(notes, position, end, s) {
            let j = choose|j: int|
                0 <= j < notes.len() && position <= #[trigger] notes[j] < end && shard_of_spec(
                    notes[j] as int,
                ) == s;
            if notes[j] < stop {
                assert(has_note(notes, position, stop));
            } else if i > c {
                assert(noted_in(notes, stop, end, s));
            }
        }
    }
}

/// A shard that is closed later is either the one that is open now and still
/// buffered, or one that lies ahead.
proof fn lemma_closed_after<H>(
    open: Option<OpenModel<H>>,
    position: int,
    rows: Seq<AccRow<H>>,
    notes: Seq<u64>,
    i: int,
)
    requires
        0 <= position,
        open matches Some(o) ==> o.index <= shard_of_spec(position),
        0 <= i < feed_spec(open, position, rows, notes).1.len(),
        feed_spec(open, position, rows, notes).1[i] is CloseCleanShard,
    ensures
        ({
            let s = feed_spec(open, position, rows, notes).1[i]->shard_index;
            (open matches Some(o) && o.index == s && !o.passthrough) || s >= shard_of_spec(position)
                && !(open matches Some(o) && o.index == s)
        }),
    decreases rows.len(),
{
    let out = feed_spec(open, position, rows, notes);
    let shard = shard_of_spec(position);
    let stop = span_end(position, position + rows.len());
    let n = stop - position;
    let (next, action) = span_step(
        entered(open, shard),
        rows.take(n),
        has_note(notes, position, stop),
    );
    let rest = feed_spec(Some(next), stop, rows.skip(n), notes);
    let c = closing(open, shard).len();
    if i < c {
        assert(out.1[i] == closing(open, shard)[i]);
    } else if i == c {
        assert(out.1[i] == action);
    } else {
        assert(out.1[i] == rest.1[i - c - 1]);
        lemma_closed_after(Some(next), stop, rows.skip(n), notes, i - c - 1);
    }
}

/// After a feed the shard of its last row is open. It passes through where the feed found a
/// note in it, and where it did so before.
proof fn lemma_open_after<H>(
    open: Option<OpenModel<H>>,
    position: int,
    rows: Seq<AccRow<H>>,
    notes: Seq<u64>,
)
    requires
        0 <= position,
        behind(open, position),
        rows.len() > 0,
    ensures
        ({
            let end = position + rows.len();
            let after = feed_spec(open, position, rows, notes).0;
            &&& after matches Some(o)
            &&& o.index == shard_of_spec(end - 1)
            &&& noted_in(notes, position, end, o.index) ==> o.passthrough
            &&& (open matches Some(before) && before.index == o.index && before.passthrough)
                ==> o.passthrough
        }),
    decreases rows.len(),
{
    let end = position + rows.len();
    let shard = shard_of_spec(position);
    let stop = span_end(position, end);
    let n = stop - position;
    let noted = has_note(notes, position, stop);
    lemma_span_end(position, rows.len());
    let (next, action) = span_step(entered(open, shard), rows.take(n), noted);
    let left = rows.skip(n);
    let o = feed_spec(open, position, rows, notes).0;
    if left.len() == 0 {
        assert(feed_spec(Some(next), stop, left, notes).0 == Some(next));
        if noted_in(notes, position, end, shard) {
            let j = choose|j: int|
                0 <= j < notes.len() && position <= #[trigger] notes[j] < end && shard_of_spec(
                    notes[j] as int,
                ) == shard;
            assert(position <= notes[j] < stop);
        }
    } else {
        lemma_open_after(Some(next), stop, left, notes);
        let index = o->Some_0.index;
        if noted_in(notes, position, end, index) {
            let j = choose|j: int|
                0 <= j < notes.len() && position <= #[trigger] notes[j] < end && shard_of_spec(
                    notes[j] as int,
                ) == index;
            assert(stop <= notes[j] < end);
            assert(noted_in(notes, stop, end, index));
        }
    }
}

/// One slice of the stream, and the positions of the notes found with it.
pub struct Slice<H> {
    pub rows: Seq<AccRow<H>>,
    pub notes: Seq<u64>,
}

/// The rows of slices, one after the other.
pub open spec fn all_rows<H>(slices: Seq<Slice<H>>) -> Seq<AccRow<H>>
    decreases slices.len(),
{
    if slices.len() == 0 {
        Seq::empty()
    } else {
        all_rows(slices.drop_last()) + slices.last().rows
    }
}

/// The open shard and all actions once the slices have been fed, the first at `position`.
pub open spec fn fed<H>(
    open: Option<OpenModel<H>>,
    position: int,
    slices: Seq<Slice<H>>,
) -> (Option<OpenModel<H>>, Seq<ActionModel<H>>)
    decreases slices.len(),
{
    if slices.len() == 0 {
        (open, Seq::empty())
    } else {
        let front = slices.drop_last();
        let before = fed(open, position, front);
        let last = feed_spec(
            before.0,
            position + all_rows(front).len(),
            slices.last().rows,
            slices.last().notes,
        );
        (last.0, before.1 + last.1)
    }
}

/// Whether one of the slices, the first of which starts at `position`, came with a note of
/// its own in a shard.
pub open spec fn noted_ever<H>(slices: Seq<Slice<H>>, position: int, shard: int) -> bool
    decreases slices.len(),
{
    if slices.len() == 0 {
        false
    } else {
        let front = slices.drop_last();
        noted_ever(front, position, shard) || noted_in(
            slices.last().notes,
            position + all_rows(front).len(),
            position + all_rows(slices).len(),
            shard,
        )
    }
}

proof fn lemma_front_contiguous<H>(slices: Seq<Slice<H>>, position: int)
    requires
        slices.len() > 0,
        contiguous_from(all_rows(slices), position),
    ensures
        contiguous_from(all_rows(slices.drop_last()), position),
        contiguous_from(slices.last().rows, position + all_rows(slices.drop_last()).len()),
{
    let front = all_rows(slices.drop_last());
    let last = slices.last().rows;
    assert forall|i: int| 0 <= i < front.len() implies (#[trigger] front[i]).0 == position + i by {
        assert(all_rows(slices)[i] == front[i]);
    }
    assert forall|i: int| 0 <= i < last.len() implies (#[trigger] last[i]).0 == position
        + front.len() + i by {
        assert(all_rows(slices)[front.len() + i] == last[i]);
    }
}

/// However a stream is sliced, no row is lost and none is repeated: what the actions build
/// or hand to the verdict, and then what the end of the range builds, is what waited at the
/// start and then the whole stream, in order.
pub proof fn law_stream_is_conserved<H>(
    open: Option<OpenModel<H>>,
    position: int,
    slices: Seq<Slice<H>>,
)
    requires
        0 <= position,
    ensures
        settled(fed(open, position, slices).1) + pending(fed(open, position, slices).0) == pending(
            open,
        ) + all_rows(slices),
    decreases slices.len(),
{
    if slices.len() == 0 {
        assert(settled(Seq::<ActionModel<H>>::empty()) =~= Seq::empty());
        assert(Seq::<AccRow<H>>::empty() + pending(open) =~= pending(open) + all_rows(slices));
    } else {
        let front = slices.drop_last();
        let last = slices.last();
        law_stream_is_conserved(open, position, front);
        let before = fed(open, position, front);
        let at = position + all_rows(front).len();
        law_feed_conserves_rows(before.0, at, last.rows, last.notes);
        let step = feed_spec(before.0, at, last.rows, last.notes);
        lemma_settled_concat(before.1, step.1);
        lemma_regroup(
            settled(before.1),
            pending(before.0),
            pending(open),
            all_rows(front),
            settled(step.1),
            pending(step.0),
            last.rows,
        );
    }
}

/// However a stream is sliced, feeding it keeps the invariant of the accumulator.
pub proof fn law_stream_keeps_placed<H>(
    open: Option<OpenModel<H>>,
    position: int,
    slices: Seq<Slice<H>>,
)
    requires
        0 <= position,
        placed(open, position),
        contiguous_from(all_rows(slices), position),
    ensures
        placed(fed(open, position, slices).0, position + all_rows(slices).len()),
    decreases slices.len(),
{
    if slices.len() > 0 {
        let front = slices.drop_last();
        let last = slices.last();
        lemma_front_contiguous(slices, position);
        law_stream_keeps_placed(open, position, front);
        law_feed_keeps_placed(
            fed(open, position, front).0,
            position + all_rows(front).len(),
            last.rows,
            last.notes,
        );
    }
}

/// What the history of notes says of the open shard.
proof fn lemma_history<H>(open: Option<OpenModel<H>>, position: int, slices: Seq<Slice<H>>)
    requires
        0 <= position,
        behind(open, position),
    ensures
        ({
            let end = position + all_rows(slices).len();
            let after = fed(open, position, slices).0;
            &&& behind(after, end)
            &&& all_rows(slices).len() > 0 ==> (after matches Some(o) && o.index == shard_of_spec(
                end - 1,
            ))
            &&& forall|shard: int| #[trigger]
                noted_ever(slices, position, shard) ==> all_rows(slices).len() > 0 && shard
                    <= shard_of_spec(end - 1) && (after matches Some(o) && (o.index == shard
                    ==> o.passthrough))
        }),
    decreases slices.len(),
{
    if slices.len() > 0 {
        let front = slices.drop_last();
        let last = slices.last();
        let at = position + all_rows(front).len();
        let end = position + all_rows(slices).len();
        lemma_history(open, position, front);
        let before = fed(open, position, front).0;
        let after = fed(open, position, slices).0;
        if last.rows.len() == 0 {
            assert(all_rows(slices) =~= all_rows(front));
            assert(after == before);
        } else {
            lemma_open_after(before, at, last.rows, last.notes);
            assert(shard_of_spec(end - 1) <= shard_of_spec(end));
        }
        assert forall|shard: int| #[trigger] noted_ever(slices, position, shard) implies all_rows(
            slices,
        ).len() > 0 && shard <= shard_of_spec(end - 1) && (after matches Some(o) && (o.index
            == shard ==> o.passthrough)) by {
            if noted_ever(front, position, shard) {
                assert(shard_of_spec(at - 1) <= shard_of_spec(end - 1));
            } else {
                let j = choose|j: int|
                    0 <= j < last.notes.len() && at <= #[trigger] last.notes[j] < end
                        && shard_of_spec(last.notes[j] as int) == shard;
                assert(at <= last.notes[j] <= end - 1);
            }
        }
    }
}

/// A shard in which any slice of the stream came with a note is never handed to the graft
/// verdict, however the stream is sliced and whatever rows waited at its start.
pub proof fn law_noted_shards_never_graft<H>(
    open: Option<OpenModel<H>>,
    position: int,
    slices: Seq<Slice<H>>,
    i: int,
)
    requires
        0 <= position,
        behind(open, position),
        0 <= i < fed(open, position, slices).1.len(),
    ensures
        fed(open, position, slices).1[i] matches ActionModel::CloseCleanShard { shard_index, .. }
            ==> !noted_ever(slices, position, shard_index),
    decreases slices.len(),
{
    let front = slices.drop_last();
    let last = slices.last();
    let at = position + all_rows(front).len();
    let end = position + all_rows(slices).len();
    lemma_history(open, position, front);
    let before = fed(open, position, front);
    let step = feed_spec(before.0, at, last.rows, last.notes);
    let action = fed(open, position, slices).1[i];
    if action is CloseCleanShard {
        let shard = action->shard_index;
        if i < before.1.len() {
            assert(action == before.1[i]);
            law_noted_shards_never_graft(open, position, front, i);
            lemma_closed_before(open, position, front, i);
            if noted_in(last.notes, at, end, shard) {
                let j = choose|j: int|
                    0 <= j < last.notes.len() && at <= #[trigger] last.notes[j] < end
                        && shard_of_spec(last.notes[j] as int) == shard;
                assert(shard_of_spec(at) <= shard);
            }
        } else {
            let k = i - before.1.len();
            assert(action == step.1[k]);
            lemma_closed_is_clean(before.0, at, last.rows, last.notes, k);
            lemma_closed_after(before.0, at, last.rows, last.notes, k);
            if noted_ever(front, position, shard) {
                assert(shard_of_spec(at - 1) <= shard_of_spec(at));
            }
        }
    }
}

/// A shard that was closed lies behind the stream.
proof fn lemma_closed_before<H>(
    open: Option<OpenModel<H>>,
    position: int,
    slices: Seq<Slice<H>>,
    i: int,
)
    requires
        0 <= position,
        behind(open, position),
        0 <= i < fed(open, position, slices).1.len(),
        fed(open, position, slices).1[i] is CloseCleanShard,
    ensures
        fed(open, position, slices).1[i]->shard_index < shard_of_spec(
            position + all_rows(slices).len() - 1,
        ),
    decreases slices.len(),
{
    let front = slices.drop_last();
    let last = slices.last();
    let at = position + all_rows(front).len();
    let end = position + all_rows(slices).len();
    lemma_history(open, position, front);
    let before = fed(open, position, front);
    let step = feed_spec(before.0, at, last.rows, last.notes);
    if i < before.1.len() {
        assert(fed(open, position, slices).1[i] == before.1[i]);
        lemma_closed_before(open, position, front, i);
        assert(shard_of_spec(at - 1) <= shard_of_spec(end - 1));
    } else {
        assert(fed(open, position, slices).1[i] == step.1[i - before.1.len()]);
        lemma_closed_behind(before.0, at, last.rows, last.notes, i - before.1.len());
    }
}

/// A shard that a feed closes lies behind the feed's last row.
proof fn lemma_closed_behind<H>(
    open: Option<OpenModel<H>>,
    position: int,
    rows: Seq<AccRow<H>>,
    notes: Seq<u64>,
    i: int,
)
    requires
        0 <= position,
        behind(open, position),
        0 <= i < feed_spec(open, position, rows, notes).1.len(),
        feed_spec(open, position, rows, notes).1[i] is CloseCleanShard,
    ensures
        feed_spec(open, position, rows, notes).1[i]->shard_index < shard_of_spec(
            position + rows.len() - 1,
        ),
    decreases rows.len(),
{
    let out = feed_spec(open, position, rows, notes);
    let shard = shard_of_spec(position);
    let end = position + rows.len();
    let stop = span_end(position, end);
    let n = stop - position;
    let noted = has_note(notes, position, stop);
    lemma_span_end(position, rows.len());
    let (next, action) = span_step(entered(open, shard), rows.take(n), noted);
    let left = rows.skip(n);
    let rest = feed_spec(Some(next), stop, left, notes);
    let c = closing(open, shard).len();
    if i < c {
        assert(out.1[i] == closing(open, shard)[i]);
        assert(shard <= shard_of_spec(end - 1));
    } else if i == c {
        assert(out.1[i] == action);
    } else {
        assert(out.1[i] == rest.1[i - c - 1]);
        lemma_closed_behind(Some(next), stop, left, notes, i - c - 1);
    }
}

/// A fresh accumulator meets the invariant when the shard was built before, and when the
/// resumed rows end where the stream starts.
pub proof fn law_seed_is_placed<H>(start_position: int, resume_rows: Seq<AccRow<H>>, built: bool)
    requires
        0 <= start_position,
        built || rows_in_shard(resume_rows, shard_of_spec(start_position)),
        built || contiguous_from(resume_rows, start_position - resume_rows.len()),
    ensures
        placed(Some(seeded(start_position, resume_rows, built)), start_position),
{
}

fn append_rows<H: Copy>(rows: &mut Vec<AccRow<H>>, span: &Vec<AccRow<H>>)
    ensures
        final(rows)@ == old(rows)@ + span@,
{
    let ghost base = rows@;
    let mut i: usize = 0;
    while i < span.len()
        invariant
            0 <= i <= span@.len(),
            rows@ == base + span@.take(i as int),
        decreases span@.len() - i,
    {
        let (p, h, r): (u64, H, Retention) = span[i];
        rows.push((p, h, r));
        assert(span@.take(i + 1) =~= span@.take(i as int).push(span@[i as int]));
        i = i + 1;
        assert(rows@ =~= base + span@.take(i as int));
    }
    assert(span@.take(span@.len() as int) =~= span@);
}

fn collect_span<H: Copy>(
    items: &Vec<(H, Retention)>,
    start: u64,
    taken: usize,
    pos: u64,
    stop: u64,
) -> (span: Vec<AccRow<H>>)
    requires
        pos == start + taken,
        pos <= stop <= start + items@.len(),
        start + items@.len() <= POSITION_LIMIT,
    ensures
        span@ == rows_at(start as int, items@).skip(taken as int).take(stop - pos),
{
    let ghost left = rows_at(start as int, items@).skip(taken as int);
    let n: usize = items.len();
    let mut span: Vec<AccRow<H>> = Vec::new();
    let mut p: u64 = pos;
    let mut i: usize = taken;
    while p < stop
        invariant
            pos == start + taken,
            pos <= p <= stop <= start + n,
            n == items@.len(),
            i - taken == p - pos,
            start + n <= POSITION_LIMIT,
            left == rows_at(start as int, items@).skip(taken as int),
            span@ == left.take(p - pos),
        decreases stop - p,
    {
        let (h, r): (H, Retention) = items[i];
        span.push((p, h, r));
        assert(left[p - pos] == (p, h, r));
        assert(left.take(p - pos + 1) =~= left.take(p - pos).push((p, h, r)));
        p = p + 1;
        i = i + 1;
    }
    span
}

fn any_note(notes: &[u64], from: u64, to: u64) -> (b: bool)
    ensures
        b == has_note(notes@, from as int, to as int),
{
    let mut i: usize = 0;
    while i < notes.len()
        invariant
            0 <= i <= notes@.len(),
            forall|j: int| 0 <= j < i ==> !(from <= #[trigger] notes@[j] < to),
        decreases notes@.len() - i,
    {
        if from <= notes[i] && notes[i] < to {
            return true;
        }
        i = i + 1;
    }
    false
}

/// A shard holds 65536 positions; rows have the positions of the stream one after the other
/// and their items in order; a note lies in a span where its position does.
pub proof fn law_positions_and_shards<H>(
    position: u64,
    items: Seq<(H, Retention)>,
    i: int,
    notes: Seq<u64>,
    note: u64,
    from: int,
    to: int,
)
    requires
        0 <= i < items.len(),
        position + items.len() <= u64::MAX,
    ensures
        65_536 * shard_of_spec(position as int) <= position < 65_536 * (shard_of_spec(
            position as int,
        ) + 1),
        rows_at(position as int, items).len() == items.len(),
        rows_at(position as int, items)[i].0 == position + i,
        rows_at(position as int, items)[i].1 == items[i].0,
        rows_at(position as int, items)[i].2 == items[i].1,
        !has_note(Seq::empty(), from, to),
        has_note(notes.push(note), from, to) <==> has_note(notes, from, to) || from <= note < to,
{
    let all = notes.push(note);
    assert(all[notes.len() as int] == note);
    if has_note(notes, from, to) {
        let k = choose|k: int| 0 <= k < notes.len() && from <= #[trigger] notes[k] < to;
        assert(all[k] == notes[k]);
    }
    if has_note(all, from, to) {
        let k = choose|k: int| 0 <= k < all.len() && from <= #[trigger] all[k] < to;
        if k < notes.len() {
            assert(notes[k] == all[k]);
        }
    }
}

/// A stream resumes in the shard of its first position: one that was built before passes
/// through, any other goes on with the rows that were kept of it.
pub proof fn law_stream_resumes_its_shard<H>(
    start: int,
    kept: Seq<AccRow<H>>,
)
    requires
        0 <= start,
    ensures
        seeded(start, kept, true).passthrough && seeded(start, kept, true).rows.len() == 0,
        !seeded(start, kept, false).passthrough && seeded(start, kept, false).rows == kept,
        65_536 * seeded(start, kept, true).index <= start < 65_536 * (seeded(
            start,
            kept,
            true,
        ).index + 1),
        seeded(start, kept, false).index == seeded(start, kept, true).index,
{
}

/// Within one shard, a span is built with all that waited once a note is found in it, and
/// from then on; until then it waits, and is kept.
pub proof fn law_spans_wait_for_a_note<H>(
    cur: OpenModel<H>,
    span: Seq<AccRow<H>>,
    noted: bool,
)
    ensures
        ({
            let (next, action) = span_step(cur, span, noted);
            &&& next.index == cur.index
            &&& next.passthrough <==> cur.passthrough || noted
            &&& cur.passthrough ==> action == ActionModel::Build(span) && next.rows == cur.rows
            &&& !cur.passthrough && noted ==> action == ActionModel::Build(cur.rows + span)
                && next.rows.len() == 0
            &&& !cur.passthrough && !noted ==> action == ActionModel::Buffer(span) && next.rows
                == cur.rows + span
        }),
{
}

/// A shard that the stream leaves while it waits is handed to the verdict with what waits; one
/// that passes through, and one that the stream stays in, is not. The shard that is entered
/// has nothing waiting.
pub proof fn law_left_shards_are_closed<H>(o: OpenModel<H>, shard: int)
    ensures
        o.index != shard && !o.passthrough ==> closing(Some(o), shard) == seq![
            ActionModel::CloseCleanShard { shard_index: o.index, rows: o.rows },
        ],
        o.index == shard || o.passthrough ==> closing(Some(o), shard).len() == 0,
        closing(None::<OpenModel<H>>, shard).len() == 0,
        o.index == shard ==> entered(Some(o), shard) == o,
        o.index != shard ==> entered(Some(o), shard).index == shard && !entered(
            Some(o),
            shard,
        ).passthrough && entered(Some(o), shard).rows.len() == 0,
        entered(None::<OpenModel<H>>, shard).index == shard && !entered(
            None::<OpenModel<H>>,
            shard,
        ).passthrough && entered(None::<OpenModel<H>>, shard).rows.len() == 0,
{
}

/// A shard that the stream passes without a note in it is handed to the graft verdict, unless
/// it passed through already: what need not be built is not built.
pub proof fn law_clean_shards_are_handed_to_the_verdict<H>(
    open: Option<OpenModel<H>>,
    position: int,
    rows: Seq<AccRow<H>>,
    notes: Seq<u64>,
    shard: int,
)
    requires
        0 <= position,
        position < 65_536 * (shard + 1) < position + rows.len(),
        forall|j: int|
            0 <= j < notes.len() && position <= #[trigger] notes[j] < position + rows.len()
                ==> notes[j] as int / 65_536 != shard,
        open matches Some(o) ==> o.index <= position / 65_536 && (o.index == shard
            ==> !o.passthrough),
    ensures
        exists|i: int|
            0 <= i < feed_spec(open, position, rows, notes).1.len() && (#[trigger] feed_spec(
                open,
                position,
                rows,
                notes,
            ).1[i]) is CloseCleanShard && feed_spec(open, position, rows, notes).1[i]->shard_index
                == shard,
    decreases rows.len(),
{
    let out = feed_spec(open, position, rows, notes);
    let here = shard_of_spec(position);
    let end = position + rows.len();
    let stop = span_end(position, end);
    let n = stop - position;
    lemma_span_end(position, rows.len());
    let noted = has_note(notes, position, stop);
    let (next, action) = span_step(entered(open, here), rows.take(n), noted);
    let left = rows.skip(n);
    let rest = feed_spec(Some(next), stop, left, notes);
    let head = closing(open, here) + seq![action];
    assert(out.1 == head + rest.1);
    if here == shard {
        assert(!noted) by {
            if noted {
                let j = choose|j: int| 0 <= j < notes.len() && position <= #[trigger] notes[j] < stop;
                assert(notes[j] as int / 65_536 == shard);
            }
        }
        assert(!next.passthrough && next.index == shard);
        assert(stop == 65_536 * (shard + 1));
        assert(left.len() > 0);
        let there = shard_of_spec(stop);
        assert(closing(Some(next), there) == seq![
            ActionModel::CloseCleanShard { shard_index: shard, rows: next.rows },
        ]);
        assert(rest.1[0] == ActionModel::CloseCleanShard { shard_index: shard, rows: next.rows });
        assert(out.1[head.len() as int] == rest.1[0]);
    } else {
        assert(here < shard);
        assert(stop == 65_536 * (here + 1));
        law_clean_shards_are_handed_to_the_verdict(Some(next), stop, left, notes, shard);
        let i = choose|i: int|
            0 <= i < rest.1.len() && (#[trigger] rest.1[i]) is CloseCleanShard
                && rest.1[i]->shard_index == shard;
        assert(out.1[head.len() + i] == rest.1[i]);
    }
}

/// What waits after a feed waited before it or is handed over to be kept: no waiting row is
/// held in memory alone.
pub proof fn law_waiting_rows_are_kept<H>(
    open: Option<OpenModel<H>>,
    position: int,
    rows: Seq<AccRow<H>>,
    notes: Seq<u64>,
    row: AccRow<H>,
)
    requires
        0 <= position,
        feed_spec(open, position, rows, notes).0 matches Some(o) && !o.passthrough
            && o.rows.contains(row),
    ensures
        (open matches Some(o) && o.rows.contains(row)) || exists|i: int|
            0 <= i < feed_spec(open, position, rows, notes).1.len() && (#[trigger] feed_spec(
                open,
                position,
                rows,
                notes,
            ).1[i]) is Buffer && feed_spec(open, position, rows, notes).1[i]->Buffer_0.contains(
                row,
            ),
    decreases rows.len(),
{
    if rows.len() > 0 {
        let out = feed_spec(open, position, rows, notes);
        let here = shard_of_spec(position);
        let stop = span_end(position, position + rows.len());
        let n = stop - position;
        lemma_span_end(position, rows.len());
        let noted = has_note(notes, position, stop);
        let span = rows.take(n);
        let cur = entered(open, here);
        let (next, action) = span_step(cur, span, noted);
        let left = rows.skip(n);
        let rest = feed_spec(Some(next), stop, left, notes);
        let head = closing(open, here) + seq![action];
        assert(out.1 == head + rest.1);
        law_waiting_rows_are_kept(Some(next), stop, left, notes, row);
        if exists|i: int|
            0 <= i < rest.1.len() && (#[trigger] rest.1[i]) is Buffer
                && rest.1[i]->Buffer_0.contains(row) {
            let i = choose|i: int|
                0 <= i < rest.1.len() && (#[trigger] rest.1[i]) is Buffer
                    && rest.1[i]->Buffer_0.contains(row);
            assert(out.1[head.len() + i] == rest.1[i]);
        } else {
            assert(next.rows.contains(row));
            if !next.passthrough {
                let k = choose|k: int| 0 <= k < next.rows.len() && next.rows[k] == row;
                if k < cur.rows.len() {
                    assert(cur.rows[k] == row);
                } else {
                    assert(span[k - cur.rows.len()] == row);
                    assert(action == ActionModel::Buffer(span));
                    assert(out.1[closing(open, here).len() as int] == action);
                }
            } else {
                assert(cur.passthrough);
                assert(cur.rows.contains(row));
            }
        }
    }
}

/// The models of actions are those of each, in order.
pub proof fn law_actions_are_their_models<H>(actions: Seq<FeedAction<H>>, i: int)
    requires
        0 <= i < actions.len(),
    ensures
        action_models(actions).len() == actions.len(),
        actions[i] matches FeedAction::Build(rows) ==> action_models(actions)[i]
            == ActionModel::Build(rows@),
        actions[i] matches FeedAction::Buffer(rows) ==> action_models(actions)[i]
            == ActionModel::Buffer(rows@),
        actions[i] matches FeedAction::CloseCleanShard { shard_index, rows } ==> action_models(
            actions,
        )[i] == (ActionModel::CloseCleanShard { shard_index: shard_index as int, rows: rows@ }),
{
}

} // verus!
