//! What the choice of a printer comes down to.

use vstd::prelude::*;
#[allow(unused_imports)]
use crate::config::DeviceText;
#[allow(unused_imports)]
use crate::model::{model_of_name, model_of_word, PrinterModel};
#[allow(unused_imports)]
use crate::protocol::job::Step;
#[allow(unused_imports)]
use crate::strings::{has_prefix, holds_part, stands_at};
#[allow(unused_imports)]
use crate::transport::pump::{next_of, NextStep, PumpModel, X6PumpModel};
#[allow(unused_imports)]
use crate::transport::stall::{progress_of, stall_text, Progress, StallGuard};
#[allow(unused_imports)]
use crate::transport::target::{
    aim_for, is_hunt_step, is_pick, is_supported, match_of, only_for, places_of, upgraded, Aim,
    FallbackRank, MatchKind, Pick, Verdict,
};

verus! {

/// Names tell models: those that begin with `LX` are of the one family, those
/// that begin with `X6h-` or `x6h-` of the other, and no others are supported.
pub proof fn names_tell_models(name: Seq<char>)
    ensures
        ({
            let lx = name.len() >= 2 && name[0] == 'L' && name[1] == 'X';
            let x6 = name.len() >= 4 && (name[0] == 'X' || name[0] == 'x') && name[1] == '6'
                && name[2] == 'h' && name[3] == '-';
            &&& lx ==> model_of_name(name) == Some(PrinterModel::LxD02)
            &&& x6 ==> model_of_name(name) == Some(PrinterModel::X6)
            &&& !lx && !x6 ==> model_of_name(name) is None
        }),
{
    reveal_strlit("LX");
    reveal_strlit("X6h-");
    reveal_strlit("x6h-");
    if name.len() >= 2 {
        assert(name.take(2)[0] == name[0] && name.take(2)[1] == name[1]);
        assert(name[0] == 'L' && name[1] == 'X' ==> name.take(2) =~= "LX"@);
    }
    if name.len() >= 4 {
        let head = name.take(4);
        assert(head[0] == name[0] && head[1] == name[1] && head[2] == name[2] && head[3]
            == name[3]);
        assert(name[1] == '6' && name[2] == 'h' && name[3] == '-' && name[0] == 'X' ==> head
            =~= "X6h-"@);
        assert(name[1] == '6' && name[2] == 'h' && name[3] == '-' && name[0] == 'x' ==> head
            =~= "x6h-"@);
    }
}

/// A device that is asked for by a word is one with that word in its name or in
/// its identifier.
pub proof fn a_word_picks_by_name_or_identifier(
    name: Seq<char>,
    id: Seq<char>,
    before: Seq<char>,
    word: Seq<char>,
    after: Seq<char>,
)
    ensures
        name == before + word + after || id == before + word + after ==> match_of(
            (Some(name), id),
            Aim::Filter(word),
            None,
        ) == Some(MatchKind::Exact),
        match_of((Some(name), id), Aim::Filter(word), None) is Some ==> exists|at: int|
            #![trigger stands_at(name, word, at)]
            #![trigger stands_at(id, word, at)]
            0 <= at && ((at + word.len() <= name.len() && name.subrange(at, at + word.len())
                == word) || (at + word.len() <= id.len() && id.subrange(at, at + word.len())
                == word)),
{
    let whole = before + word + after;
    let at = before.len() as int;
    assert(whole.subrange(at, at + word.len()) =~= word);
    assert(stands_at(whole, word, at));
    if holds_part(name, word) {
        let at = choose|at: int| stands_at(name, word, at);
        assert(stands_at(name, word, at));
    }
    if holds_part(id, word) {
        let at = choose|at: int| stands_at(id, word, at);
        assert(stands_at(id, word, at));
    }
}

/// The saved printer is told by its identifier; one with its name stands in for
/// it, and then any supported one. With no printer saved any supported one will
/// do, and a device without a name never does.
pub proof fn the_saved_printer_comes_first(
    name: Seq<char>,
    id: Seq<char>,
    saved_id: Seq<char>,
    saved_name: Seq<char>,
    aim: Aim,
    only: Option<PrinterModel>,
)
    ensures
        ({
            let saved = Aim::SavedId { id: saved_id, name: saved_name };
            let found = match_of((Some(name), id), saved, None);
            &&& id == saved_id ==> found == Some(MatchKind::Exact)
            &&& id != saved_id && name == saved_name ==> found == Some(
                MatchKind::Fallback(FallbackRank::SavedName),
            )
            &&& id != saved_id && name != saved_name && model_of_name(name) is Some ==> found
                == Some(MatchKind::Fallback(FallbackRank::AnySupported))
            &&& id != saved_id && name != saved_name && model_of_name(name) is None ==> found
                is None
        }),
        match_of((Some(name), id), Aim::AnySupported, None) == if model_of_name(name) is Some {
            Some(MatchKind::Exact)
        } else {
            None
        },
        match_of((None, id), aim, only) is None,
{
}

/// What is asked for goes before what is saved, and a model that is asked for
/// before the one that is saved.
pub proof fn what_is_asked_for_goes_first(
    word: Seq<char>,
    saved: DeviceText,
    model: Option<PrinterModel>,
)
    ensures
        aim_for(Some(word), Some(saved)) == Aim::Filter(word),
        aim_for(Some(word), None) == Aim::Filter(word),
        aim_for(None, Some(saved)) == (Aim::SavedId { id: saved.id, name: saved.name }),
        aim_for(None, None) == Aim::AnySupported,
        model is Some ==> only_for(Some(word), Some(saved), model) == model && only_for(
            None,
            Some(saved),
            model,
        ) == model,
        only_for(Some(word), Some(saved), None) is None,
        saved.model matches Some(w) ==> only_for(None, Some(saved), None) == model_of_word(w),
        saved.model is None ==> only_for(None, Some(saved), None) is None,
        only_for(None, None, None) is None,
{
}

/// A hunt takes an exact match at once. Otherwise it goes on until its time is up
/// and then takes the best that it has seen, of two alike the one seen first.
pub proof fn a_hunt_takes_the_best_it_has_seen(
    before: Option<((Option<Seq<char>>, Seq<char>), FallbackRank)>,
    seen: Seq<(Option<Seq<char>>, Seq<char>)>,
    pick: Pick,
    late: bool,
    after: Option<((Option<Seq<char>>, Seq<char>), FallbackRank)>,
    verdict: Verdict,
)
    requires
        is_hunt_step(before, seen, pick, late, after, verdict),
    ensures
        pick matches Pick::Exact(i) ==> (verdict matches Verdict::Take(d) && d@ == seen[i]),
        !(pick is Exact) && !late ==> verdict is KeepLooking,
        !(pick is Exact) && late && before is None && pick is Nothing ==> verdict is NoPrinter,
        late && before is None ==> (pick matches Pick::Fallback(i, _) ==> (
        verdict matches Verdict::Take(d) && d@ == seen[i])),
        late && pick is Nothing ==> (before matches Some((dev, _)) ==> (
        verdict matches Verdict::Take(d) && d@ == dev)),
        late && before is Some && pick is Fallback ==> {
            let held = before->Some_0;
            let better = pick->Fallback_1 == FallbackRank::SavedName && held.1
                == FallbackRank::AnySupported;
            verdict matches Verdict::Take(d) && d@ == if better {
                seen[pick->Fallback_0]
            } else {
                held.0
            }
        },
{
}

/// A list of everything in range shows each device once, the supported printers
/// first, and otherwise in the order in which they were seen.
pub proof fn a_list_shows_each_device_once(
    seen: Seq<(Option<Seq<char>>, Seq<char>)>,
    printers: bool,
    n: int,
)
    requires
        0 <= n <= seen.len() <= usize::MAX,
    ensures
        forall|k: int|
            0 <= k < places_of(seen, printers, n).len() ==> {
                let at = #[trigger] places_of(seen, printers, n)[k];
                at < n && (seen[at as int].0 matches Some(name) && model_of_name(name) is Some)
                    == printers
            },
        forall|j: int, k: int|
            0 <= j < k < places_of(seen, printers, n).len() ==> #[trigger] places_of(
                seen,
                printers,
                n,
            )[j] < #[trigger] places_of(seen, printers, n)[k],
        forall|at: int|
            0 <= at < n && (#[trigger] seen[at].0 matches Some(name) && model_of_name(name) is Some)
                == printers ==> places_of(seen, printers, n).contains(at as usize),
        places_of(seen, true, n).len() + places_of(seen, false, n).len() == n,
    decreases n,
{
    if n > 0 {
        a_list_shows_each_device_once(seen, printers, n - 1);
        let before = places_of(seen, printers, n - 1);
        let all = places_of(seen, printers, n);
        assert forall|at: int|
            0 <= at < n && (#[trigger] seen[at].0 matches Some(name) && model_of_name(name) is Some)
                == printers implies all.contains(at as usize) by {
            if at < n - 1 {
                assert(before.contains(at as usize));
                let k = choose|k: int| 0 <= k < before.len() && before[k] == at as usize;
                assert(all[k] == at as usize);
            } else {
                assert(is_supported(seen[n - 1]) == printers);
                assert(all[before.len() as int] == at as usize);
            }
        }
    }
}

/// A job is given up once a minute has gone by without a packet sent or asked for
/// again, and not before; until then what it asks for is done.
pub proof fn a_job_is_given_up_after_a_minute(pump: PumpModel, now: u64)
    ensures
        ({
            let moved = pump.job.stats.packets_sent != pump.stall.last.packets_sent
                || pump.job.stats.retransmits != pump.stall.last.retransmits;
            let given_up = !moved && now - pump.stall.since >= 60_000_000_000;
            &&& given_up ==> pump.next(now) is Stalled
            &&& !given_up ==> match pump.job.action() {
                Step::Send(bytes) => pump.next(now) == NextStep::Write(bytes),
                Step::WaitMs(ms) => pump.next(now) == NextStep::Sleep(ms),
                Step::WaitNotification => pump.next(now) == NextStep::Await,
                Step::Done => pump.next(now) == NextStep::Finished,
            }
            &&& !given_up ==> pump.after_next(now).job == pump.job.after_action()
            &&& moved ==> pump.after_next(now).stall.since == now
            &&& !moved ==> pump.after_next(now).stall == pump.stall
        }),
{
}

/// The same holds of a job for an X6.
pub proof fn an_x6_job_is_given_up_after_a_minute(pump: X6PumpModel, now: u64)
    ensures
        ({
            let moved = pump.job.stats.packets_sent != pump.stall.last.packets_sent
                || pump.job.stats.retransmits != pump.stall.last.retransmits;
            let given_up = !moved && now - pump.stall.since >= 60_000_000_000;
            &&& given_up ==> pump.next(now) is Stalled
            &&& !given_up ==> match pump.job.action() {
                Step::Send(bytes) => pump.next(now) == NextStep::Write(bytes),
                Step::WaitMs(ms) => pump.next(now) == NextStep::Sleep(ms),
                Step::WaitNotification => pump.next(now) == NextStep::Await,
                Step::Done => pump.next(now) == NextStep::Finished,
            }
            &&& !given_up ==> pump.after_next(now).job == pump.job.after_action()
            &&& moved ==> pump.after_next(now).stall.since == now
            &&& !moved ==> pump.after_next(now).stall == pump.stall
        }),
{
}

} // verus!
