//! Refinement of one work item: read the engine's last analysis line, drop
//! items that are mate scores, unscored or too decisive, replay the
//! principal variation and keep the position it reaches.

use vstd::prelude::*;
use shakmaty::fen::Fen;
use shakmaty::uci::UciMove;
use shakmaty::{CastlingMode, Chess, EnPassantMode, Position};
use crate::analysis::{centipawns, has_score, parse_analysis, pv_moves, reports_mate, Analysis};
use crate::record::{RefinedRecord, WorkItem};
use crate::text::{chars_of, string_of, strings_view};

verus! {

/// The FEN of the position reached by playing the move written `uci` in
/// the position written `fen`; `None` when `fen` is no valid standard
/// position, `uci` is no move in UCI notation, or the move is illegal there.
pub uninterp spec fn fen_after_move(fen: Seq<char>, uci: Seq<char>) -> Option<Seq<char>>;

/// Relies on shakmaty: `Fen::from_ascii` with `Fen::into_position` reads the
/// position, `UciMove::from_ascii` with `UciMove::to_move` reads the move,
/// `Position::play` plays it and `Fen::from_position` writes the position
/// reached. None of them looks at anything but its arguments.
#[verifier::external_body]
fn play_uci(fen: &Vec<char>, uci: &Vec<char>) -> (r: Option<Vec<char>>)
    ensures
        match r {
            Some(f) => fen_after_move(fen@, uci@) == Some(f@),
            None => fen_after_move(fen@, uci@) is None,
        },
{
    let fen: String = fen.iter().collect();
    let uci: String = uci.iter().collect();
    let pos: Chess = Fen::from_ascii(fen.as_bytes()).ok()?.into_position(CastlingMode::Standard).ok()?;
    let mv = UciMove::from_ascii(uci.as_bytes()).ok()?.to_move(&pos).ok()?;
    let next = pos.play(&mv).ok()?;
    Some(Fen::from_position(next, EnPassantMode::Legal).to_string().chars().collect())
}

/// The FEN reached by playing `moves` in order from `fen`; `None` as soon
/// as one of them cannot be played.
pub open spec fn replay(fen: Seq<char>, moves: Seq<Seq<char>>) -> Option<Seq<char>>
    decreases moves.len(),
{
    if moves.len() == 0 {
        Some(fen)
    } else {
        match replay(fen, moves.drop_last()) {
            Some(f) => fen_after_move(f, moves.last()),
            None => None,
        }
    }
}

/// Plays a principal variation from a position and gives the FEN reached.
pub fn replay_pv(fen: &str, pv: &Vec<String>) -> (r: Option<String>)
    ensures
        match r {
            Some(f) => replay(fen@, strings_view(pv@)) == Some(f@),
            None => replay(fen@, strings_view(pv@)) is None,
        },
{
    let mut cur = chars_of(fen);
    let mut i: usize = 0;
    assert(strings_view(pv@).take(0) =~= Seq::<Seq<char>>::empty());
    while i < pv.len()
        invariant
            i <= pv@.len(),
            replay(fen@, strings_view(pv@).take(i as int)) == Some(cur@),
        decreases pv@.len() - i,
    {
        assert(strings_view(pv@).take(i + 1).drop_last() =~= strings_view(pv@).take(i as int));
        let mv = chars_of(pv[i].as_str());
        match play_uci(&cur, &mv) {
            Some(next) => {
                cur = next;
            },
            None => {
                proof {
                    lemma_replay_stuck(fen@, strings_view(pv@), i + 1);
                }
                return None;
            },
        }
        i = i + 1;
    }
    assert(strings_view(pv@).take(i as int) =~= strings_view(pv@));
    Some(string_of(&cur))
}

/// Once a prefix of the moves cannot be played, neither can the whole.
proof fn lemma_replay_stuck(fen: Seq<char>, moves: Seq<Seq<char>>, n: int)
    requires
        0 <= n <= moves.len(),
        replay(fen, moves.take(n)) is None,
    ensures
        replay(fen, moves) is None,
    decreases moves.len() - n,
{
    if n < moves.len() {
        assert(moves.take(n + 1).drop_last() =~= moves.take(n));
        lemma_replay_stuck(fen, moves, n + 1);
    } else {
        assert(moves.take(n) =~= moves);
    }
}

pub open spec fn abs(x: int) -> int {
    if x < 0 {
        -x
    } else {
        x
    }
}

/// The `(fen, label)` record that an item refines to, given the engine's
/// last analysis line for it; `None` when the item is discarded.
pub open spec fn refined(fen: Seq<char>, label: Seq<char>, line: Seq<char>, filter_limit: i32) -> Option<
    (Seq<char>, Seq<char>),
> {
    if reports_mate(line) || !has_score(line) {
        None
    } else {
        match centipawns(line) {
            None => None,
            Some(s) => if abs(s as int) > filter_limit {
                None
            } else {
                match replay(fen, pv_moves(line)) {
                    Some(f) => Some((f, label)),
                    None => None,
                }
            },
        }
    }
}

/// Refines one item from the engine's last analysis line for it.
pub fn refine(item: &WorkItem, analysis: &str, filter_limit: i32) -> (r: Option<RefinedRecord>)
    ensures
        match r {
            Some(rec) => refined(item.fen@, item.label@, analysis@, filter_limit) == Some(
                (rec.fen@, rec.label@),
            ),
            None => refined(item.fen@, item.label@, analysis@, filter_limit) is None,
        },
{
    match parse_analysis(analysis) {
        Analysis::Scored { score, pv } => {
            let magnitude: i64 = if score < 0 { -(score as i64) } else { score as i64 };
            if magnitude > filter_limit as i64 {
                return None;
            }
            match replay_pv(item.fen.as_str(), &pv) {
                Some(fen) => Some(RefinedRecord { fen, label: item.label.clone() }),
                None => None,
            }
        },
        _ => None,
    }
}

/// An item is kept exactly when the line is no mate score, carries a score
/// that reads as an integer `s` with `|s|` within the limit, and its
/// principal variation can be played from the item's position.
pub proof fn lemma_filter_correct(fen: Seq<char>, label: Seq<char>, line: Seq<char>, filter_limit: i32)
    ensures
        refined(fen, label, line, filter_limit) is Some <==> !reports_mate(line) && has_score(line)
            && centipawns(line) is Some && abs(centipawns(line).unwrap() as int) <= filter_limit
            && replay(fen, pv_moves(line)) is Some,
{
}

/// A mate score, or a principal variation that cannot be played, discards
/// the item whatever the filter limit; the outcome depends on the item and
/// the line alone, so the same engine output discards it on every run.
pub proof fn lemma_discards(fen: Seq<char>, label: Seq<char>, line: Seq<char>, filter_limit: i32)
    ensures
        reports_mate(line) ==> refined(fen, label, line, filter_limit) is None,
        replay(fen, pv_moves(line)) is None ==> refined(fen, label, line, filter_limit) is None,
{
}

/// Playing moves one run after another is playing them all at once.
pub proof fn lemma_replay_concat(fen: Seq<char>, a: Seq<Seq<char>>, b: Seq<Seq<char>>)
    ensures
        replay(fen, a + b) == match replay(fen, a) {
            Some(f) => replay(f, b),
            None => None,
        },
    decreases b.len(),
{
    if b.len() == 0 {
        assert(a + b =~= a);
    } else {
        assert((a + b).drop_last() =~= a + b.drop_last());
        lemma_replay_concat(fen, a, b.drop_last());
    }
}

} // verus!
