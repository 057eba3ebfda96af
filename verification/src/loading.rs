use vstd::prelude::*;

use crate::backend::RemoteGame;
use crate::input::InputAction;

verus! {

/// How many log lines the loading screen shows.
pub const MAX_LOG_LINES: usize = 15;

/// What the loading screen asks of the program.
pub enum LoadingOutcome {
    Nothing,
    Done { games: Vec<RemoteGame>, source_idx: usize },
    RefreshDone,
    Cancelled,
}

/// What the loading thread came back with.
pub enum LoadingResult {
    /// The games of one source, or nothing when loading failed.
    Single(Option<Vec<RemoteGame>>),
    /// Whether refreshing every source ran to its end.
    RefreshAll(bool),
}

/// The outcome once the loading thread has ended: a cancelled load is
/// cancelled; loaded games are shown; a full refresh goes back to the menu; a
/// failed load, a refresh that did not end, or a thread that panicked (`None`)
/// counts as cancelled.
pub fn finished_outcome(cancelled: bool, result: Option<LoadingResult>, source_idx: usize) -> (res: LoadingOutcome)
    ensures
        cancelled ==> res is Cancelled,
        !cancelled ==> match result {
            Some(LoadingResult::Single(Some(games))) => res == LoadingOutcome::Done { games, source_idx },
            Some(LoadingResult::RefreshAll(true)) => res is RefreshDone,
            _ => res is Cancelled,
        },
{
    if cancelled {
        return LoadingOutcome::Cancelled;
    }
    match result {
        Some(LoadingResult::Single(Some(games))) => LoadingOutcome::Done { games, source_idx },
        Some(LoadingResult::RefreshAll(true)) => LoadingOutcome::RefreshDone,
        _ => LoadingOutcome::Cancelled,
    }
}

/// Whether an input cancels loading: B does.
pub fn cancels(action: InputAction) -> (res: bool)
    ensures
        res == (action == InputAction::Back),
{
    action == InputAction::Back
}

/// Where the shown part of the log starts: the last `MAX_LOG_LINES` lines.
pub fn log_window_start(lines: usize) -> (res: usize)
    ensures
        res == (if lines > MAX_LOG_LINES { lines - MAX_LOG_LINES } else { 0 }),
{
    if lines > MAX_LOG_LINES {
        lines - MAX_LOG_LINES
    } else {
        0
    }
}

/// The games of every bucket of a source, bucket after bucket.
pub open spec fn concat_all(parts: Seq<Seq<RemoteGame>>) -> Seq<RemoteGame>
    decreases parts.len(),
{
    if parts.len() == 0 {
        Seq::empty()
    } else {
        concat_all(parts.drop_last()) + parts.last()
    }
}

/// The games of every bucket of a source, bucket after bucket.
pub fn merge_games(parts: Vec<Vec<RemoteGame>>) -> (res: Vec<RemoteGame>)
    ensures
        res@ == concat_all(Seq::new(parts@.len(), |i: int| parts@[i]@)),
{
    let ghost all = Seq::new(parts@.len(), |i: int| parts@[i]@);
    let mut res: Vec<RemoteGame> = Vec::new();
    let mut i: usize = 0;
    while i < parts.len()
        invariant
            i <= parts.len(),
            all == Seq::new(parts@.len(), |i: int| parts@[i]@),
            res@ == concat_all(all.take(i as int)),
        decreases parts.len() - i,
    {
        assert(all.take(i + 1).drop_last() =~= all.take(i as int));
        assert(all.take(i + 1).last() == parts@[i as int]@);
        let ghost before = res@;
        let mut j: usize = 0;
        while j < parts[i].len()
            invariant
                i < parts.len(),
                j <= parts@[i as int].len(),
                res@ == before + parts@[i as int]@.take(j as int),
            decreases parts@[i as int].len() - j,
        {
            res.push(parts[i][j].copy());
            assert(before + parts@[i as int]@.take(j + 1) =~= (before + parts@[i as int]@.take(j as int)).push(parts@[i as int]@[j as int]));
            j = j + 1;
        }
        assert(parts@[i as int]@.take(parts@[i as int].len() as int) =~= parts@[i as int]@);
        i = i + 1;
    }
    assert(all.take(parts.len() as int) =~= all);
    res
}

} // verus!
