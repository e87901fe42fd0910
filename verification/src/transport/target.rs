//! Which of the devices in range a connect attempt takes.

use crate::config::SavedDevice;
use crate::model::PrinterModel;
use crate::strings::{contains, same_text};
use vstd::prelude::*;
#[allow(unused_imports)]
use crate::config::DeviceText;
#[allow(unused_imports)]
use crate::model::{model_of_name, model_of_word};
#[allow(unused_imports)]
use crate::strings::holds_part;

verus! {

/// Polling interval while waiting for a matching device to appear, in
/// milliseconds.
pub const DISCOVERY_POLL_MS: u64 = 300;

/// A device that the radio has seen.
#[derive(Debug)]
pub struct Seen {
    /// The advertised name, if the device gives one.
    pub name: Option<String>,
    /// The platform identifier.
    pub id: String,
}

/// The advertised name and the identifier of a device.
impl View for Seen {
    type V = (Option<Seq<char>>, Seq<char>);

    open spec fn view(&self) -> (Option<Seq<char>>, Seq<char>) {
        (crate::config::word_text(self.name), self.id@)
    }
}

impl Clone for Seen {
    fn clone(&self) -> (copy: Self)
        ensures
            copy@ == self@,
    {
        let name: Option<String> = match &self.name {
            Some(n) => Some(n.as_str().to_owned()),
            None => None,
        };
        Seen { name, id: self.id.as_str().to_owned() }
    }
}

/// What a connect attempt is hunting for. Resolution order (highest first):
///
/// 1. `Filter` — an explicit `--device` string; name or id substring match.
/// 2. `SavedId` — the id remembered in the config file; an exact id match
///    wins, but fallbacks are kept in case the saved device never shows up
///    before the scan deadline: a device whose local name equals the saved
///    name is preferred over any other supported printer.
/// 3. `AnySupported` — no flag, no saved device: the first supported printer.
#[derive(Debug)]
pub enum Target {
    Filter(String),
    SavedId { id: String, name: String },
    AnySupported,
}

/// A target as plain text.
#[verifier::ext_equal]
pub enum Aim {
    Filter(Seq<char>),
    SavedId { id: Seq<char>, name: Seq<char> },
    AnySupported,
}

impl View for Target {
    type V = Aim;

    open spec fn view(&self) -> Aim {
        match self {
            Target::Filter(f) => Aim::Filter(f@),
            Target::SavedId { id, name } => Aim::SavedId { id: id@, name: name@ },
            Target::AnySupported => Aim::AnySupported,
        }
    }
}

/// Preference order among fallback candidates.
#[derive(Debug, Clone, Copy, PartialEq, Eq, Structural)]
pub enum FallbackRank {
    /// Any supported printer.
    AnySupported,
    /// Local name equals the saved device's name.
    SavedName,
}

impl FallbackRank {
    /// Whether a candidate of this rank replaces one of the other.
    pub open spec fn beats(self, held: FallbackRank) -> bool {
        self == FallbackRank::SavedName && held == FallbackRank::AnySupported
    }

    fn is_better_than(self, held: FallbackRank) -> (better: bool)
        ensures
            better == self.beats(held),
    {
        self == FallbackRank::SavedName && held == FallbackRank::AnySupported
    }
}

/// How well a device satisfies a [`Target`].
#[derive(Debug, Clone, Copy, PartialEq, Eq, Structural)]
pub enum MatchKind {
    /// Take this device immediately.
    Exact,
    /// Use this device only once the scan deadline expires; while waiting,
    /// a higher-ranked fallback replaces a lower-ranked one.
    Fallback(FallbackRank),
}

/// How well a device satisfies a target. With `only` set, a device of another
/// model, or of none, never does.
pub open spec fn match_of(
    dev: (Option<Seq<char>>, Seq<char>),
    aim: Aim,
    only: Option<PrinterModel>,
) -> Option<MatchKind> {
    match dev.0 {
        None => None,
        Some(name) => if only is Some && model_of_name(name) != only {
            None
        } else {
            match aim {
                Aim::Filter(f) => if holds_part(name, f) || holds_part(dev.1, f) {
                    Some(MatchKind::Exact)
                } else {
                    None
                },
                Aim::SavedId { id, name: saved } => if dev.1 == id {
                    Some(MatchKind::Exact)
                } else if name == saved {
                    Some(MatchKind::Fallback(FallbackRank::SavedName))
                } else if model_of_name(name) is Some {
                    Some(MatchKind::Fallback(FallbackRank::AnySupported))
                } else {
                    None
                },
                Aim::AnySupported => if model_of_name(name) is Some {
                    Some(MatchKind::Exact)
                } else {
                    None
                },
            }
        },
    }
}

/// Match a device against `target`; a device without a name matches nothing.
pub fn match_target(seen: &Seen, target: &Target, only: Option<PrinterModel>) -> (kind: Option<
    MatchKind,
>)
    ensures
        kind == match_of(seen@, target@, only),
{
    let name: &str = match &seen.name {
        Some(n) => n.as_str(),
        None => {
            return None;
        },
    };
    let model: Option<PrinterModel> = PrinterModel::from_device_name(name);
    if let Some(m) = only {
        match model {
            Some(found) => {
                if found != m {
                    return None;
                }
            },
            None => {
                return None;
            },
        }
    }
    match target {
        Target::Filter(f) => {
            if contains(name, f.as_str()) || contains(seen.id.as_str(), f.as_str()) {
                Some(MatchKind::Exact)
            } else {
                None
            }
        },
        Target::SavedId { id, name: saved } => {
            if same_text(seen.id.as_str(), id.as_str()) {
                Some(MatchKind::Exact)
            } else if same_text(name, saved.as_str()) {
                Some(MatchKind::Fallback(FallbackRank::SavedName))
            } else if model.is_some() {
                Some(MatchKind::Fallback(FallbackRank::AnySupported))
            } else {
                None
            }
        },
        Target::AnySupported => {
            if model.is_some() {
                Some(MatchKind::Exact)
            } else {
                None
            }
        },
    }
}

/// The devices in a list.
pub open spec fn devices(seen: Seq<Seen>) -> Seq<(Option<Seq<char>>, Seq<char>)> {
    Seq::new(seen.len(), |i: int| seen[i]@)
}

/// A device found in a list, with how well it satisfies the target.
pub enum Pick {
    /// Nothing in the list satisfies the target.
    Nothing,
    /// The first device that does so exactly.
    Exact(int),
    /// No device does so exactly; the first of the best fallbacks.
    Fallback(int, FallbackRank),
}

/// Whether the device at `i` is an exact match.
pub open spec fn exact_at(
    seen: Seq<(Option<Seq<char>>, Seq<char>)>,
    aim: Aim,
    only: Option<PrinterModel>,
    i: int,
) -> bool {
    match_of(seen[i], aim, only) == Some(MatchKind::Exact)
}

/// Whether the device at `i` is a fallback of some rank.
pub open spec fn fallback_at(
    seen: Seq<(Option<Seq<char>>, Seq<char>)>,
    aim: Aim,
    only: Option<PrinterModel>,
    i: int,
    rank: FallbackRank,
) -> bool {
    match_of(seen[i], aim, only) == Some(MatchKind::Fallback(rank))
}

/// Whether `pick` is what a pass over the list finds.
pub open spec fn is_pick(
    seen: Seq<(Option<Seq<char>>, Seq<char>)>,
    aim: Aim,
    only: Option<PrinterModel>,
    pick: Pick,
) -> bool {
    match pick {
        Pick::Nothing => forall|j: int|
            0 <= j < seen.len() ==> match_of(#[trigger] seen[j], aim, only) is None,
        Pick::Exact(i) => {
            &&& 0 <= i < seen.len()
            &&& exact_at(seen, aim, only, i)
            &&& forall|j: int| 0 <= j < i ==> !#[trigger] exact_at(seen, aim, only, j)
        },
        Pick::Fallback(i, rank) => {
            &&& 0 <= i < seen.len()
            &&& fallback_at(seen, aim, only, i, rank)
            &&& forall|j: int| 0 <= j < seen.len() ==> !#[trigger] exact_at(seen, aim, only, j)
            &&& forall|j: int, r: FallbackRank|
                0 <= j < seen.len() && #[trigger] fallback_at(seen, aim, only, j, r) ==> !r.beats(
                    rank,
                ) && (r == rank ==> i <= j)
        },
    }
}

/// A fallback candidate as what a pass over a list without exact matches finds.
pub open spec fn fallback_pick(fallback: Option<(usize, FallbackRank)>) -> Pick {
    match fallback {
        Some((i, rank)) => Pick::Fallback(i as int, rank),
        None => Pick::Nothing,
    }
}

/// One pass over the devices in range, up to the first exact match for `target`
/// if there is one: that match, and the best-ranked fallback candidate before it
/// (see [`MatchKind`]).
#[verifier::loop_isolation(false)]
pub fn find_match(seen: &Vec<Seen>, target: &Target, only: Option<PrinterModel>) -> (r: (
    Option<usize>,
    Option<(usize, FallbackRank)>,
))
    ensures
        match r.0 {
            Some(i) => is_pick(devices(seen@), target@, only, Pick::Exact(i as int)) && is_pick(
                devices(seen@).take(i as int),
                target@,
                only,
                fallback_pick(r.1),
            ),
            None => is_pick(devices(seen@), target@, only, fallback_pick(r.1)),
        },
{
    let ghost all = devices(seen@);
    let ghost aim = target@;
    let mut fallback: Option<(usize, FallbackRank)> = None;
    let mut k: usize = 0;
    while k < seen.len()
        invariant
            k <= seen@.len(),
            all == devices(seen@),
            aim == target@,
            forall|j: int| 0 <= j < k ==> !#[trigger] exact_at(all, aim, only, j),
            fallback matches Some((i, rank)) ==> 0 <= i < k && fallback_at(
                all,
                aim,
                only,
                i as int,
                rank,
            ) && (forall|j: int, r: FallbackRank|
                0 <= j < k && #[trigger] fallback_at(all, aim, only, j, r) ==> !r.beats(rank) && (r
                    == rank ==> i <= j)),
            fallback is None ==> forall|j: int|
                0 <= j < k ==> match_of(#[trigger] all[j], aim, only) is None,
        decreases seen@.len() - k,
    {
        assert(all[k as int] == seen@[k as int]@);
        match match_target(&seen[k], target, only) {
            Some(MatchKind::Exact) => {
                assert(exact_at(all, aim, only, k as int));
                proof {
                    let passed = all.take(k as int);
                    assert forall|j: int| 0 <= j < k implies #[trigger] passed[j] == all[j] by {}
                    assert forall|j: int| 0 <= j < k implies #[trigger] exact_at(
                        passed,
                        aim,
                        only,
                        j,
                    ) == exact_at(all, aim, only, j) by {}
                    assert forall|j: int, r: FallbackRank| 0 <= j < k implies #[trigger] fallback_at(
                        passed,
                        aim,
                        only,
                        j,
                        r,
                    ) == fallback_at(all, aim, only, j, r) by {}
                }
                return (Some(k), fallback);
            },
            Some(MatchKind::Fallback(rank)) => {
                assert(fallback_at(all, aim, only, k as int, rank));
                let better: bool = match fallback {
                    Some((_, held)) => rank.is_better_than(held),
                    None => true,
                };
                if better {
                    proof {
                        assert forall|j: int, r: FallbackRank|
                            0 <= j < k + 1 && #[trigger] fallback_at(
                                all,
                                aim,
                                only,
                                j,
                                r,
                            ) implies !r.beats(rank) && (r == rank ==> k <= j) by {
                            if j < k {
                                if fallback is None {
                                    assert(match_of(all[j], aim, only) is None);
                                }
                            }
                        }
                    }
                    fallback = Some((k, rank));
                }
            },
            None => {
                assert(forall|r: FallbackRank| !fallback_at(all, aim, only, k as int, r));
            },
        }
        k = k + 1;
    }
    (None, fallback)
}

/// What a connect attempt looks for.
#[derive(Debug)]
pub struct Search {
    pub target: Target,
    /// Devices of other models are passed over.
    pub only: Option<PrinterModel>,
    /// A word for the model in the config file that stands for none.
    pub unknown_model: Option<String>,
}

/// The target for a `--device` filter and a saved device.
pub open spec fn aim_for(explicit: Option<Seq<char>>, saved: Option<DeviceText>) -> Aim {
    match explicit {
        Some(f) => Aim::Filter(f),
        None => match saved {
            Some(d) => Aim::SavedId { id: d.id, name: d.name },
            None => Aim::AnySupported,
        },
    }
}

/// The word for the model that a reconnect goes by: that of the saved device,
/// unless a flag says otherwise.
pub open spec fn saved_word(
    explicit: Option<Seq<char>>,
    saved: Option<DeviceText>,
    model: Option<PrinterModel>,
) -> Option<Seq<char>> {
    if model is None && explicit is None {
        match saved {
            Some(d) => d.model,
            None => None,
        }
    } else {
        None
    }
}

/// The model that the search is restricted to.
pub open spec fn only_for(
    explicit: Option<Seq<char>>,
    saved: Option<DeviceText>,
    model: Option<PrinterModel>,
) -> Option<PrinterModel> {
    if model is Some {
        model
    } else {
        match saved_word(explicit, saved, model) {
            Some(w) => model_of_word(w),
            None => None,
        }
    }
}

/// The word of the config file that is passed over with a warning.
pub open spec fn unknown_word(
    explicit: Option<Seq<char>>,
    saved: Option<DeviceText>,
    model: Option<PrinterModel>,
) -> Option<Seq<char>> {
    match saved_word(explicit, saved, model) {
        Some(w) => if model_of_word(w) is None {
            Some(w)
        } else {
            None
        },
        None => None,
    }
}

/// The text of an optional filter.
pub open spec fn filter_text(explicit: Option<&str>) -> Option<Seq<char>> {
    match explicit {
        Some(f) => Some(f@),
        None => None,
    }
}

/// The record of an optional saved device.
pub open spec fn saved_text(saved: Option<&SavedDevice>) -> Option<DeviceText> {
    match saved {
        Some(d) => Some(d@),
        None => None,
    }
}

/// What to look for. Resolution order (see [`Target`]): `explicit` filter >
/// `saved` device > first supported printer. A `model` restricts the search;
/// without one, a reconnect to the saved device is restricted to the model
/// that it was saved with.
pub fn resolve(
    explicit: Option<&str>,
    saved: Option<&SavedDevice>,
    model: Option<PrinterModel>,
) -> (search: Search)
    ensures
        search.target@ == aim_for(filter_text(explicit), saved_text(saved)),
        search.only == only_for(filter_text(explicit), saved_text(saved), model),
        crate::config::word_text(search.unknown_model) == unknown_word(
            filter_text(explicit),
            saved_text(saved),
            model,
        ),
{
    let target: Target = match explicit {
        Some(f) => Target::Filter(f.to_owned()),
        None => match saved {
            Some(d) => Target::SavedId {
                id: d.id.as_str().to_owned(),
                name: d.name.as_str().to_owned(),
            },
            None => Target::AnySupported,
        },
    };
    if model.is_some() || explicit.is_some() {
        return Search { target, only: model, unknown_model: None };
    }
    match saved {
        Some(d) => match &d.model {
            Some(w) => match PrinterModel::parse(w.as_str()) {
                Ok(m) => Search { target, only: Some(m), unknown_model: None },
                Err(_) => Search {
                    target,
                    only: None,
                    unknown_model: Some(w.as_str().to_owned()),
                },
            },
            None => Search { target, only: None, unknown_model: None },
        },
        None => Search { target, only: None, unknown_model: None },
    }
}

/// The label of a target in the log.
pub open spec fn target_label(aim: Aim) -> Seq<char> {
    match aim {
        Aim::Filter(f) => "a device matching `"@ + f + "`"@,
        Aim::SavedId { id, name } => "saved device "@ + id,
        Aim::AnySupported => "any supported printer"@,
    }
}

impl Target {
    /// The label of a target in the log.
    pub fn label(&self) -> (text: String)
        ensures
            text@ == target_label(self@),
    {
        match self {
            Target::Filter(f) => {
                let mut text: String = "a device matching `".to_owned();
                text.append(f.as_str());
                text.append("`");
                text
            },
            Target::SavedId { id, .. } => {
                let mut text: String = "saved device ".to_owned();
                text.append(id.as_str());
                text
            },
            Target::AnySupported => "any supported printer".to_owned(),
        }
    }
}

/// What to do after a pass over the devices in range.
#[derive(Debug)]
pub enum Verdict {
    /// Connect to this device.
    Take(Seen),
    /// Nothing yet: look again after [`DISCOVERY_POLL_MS`].
    KeepLooking,
    /// The deadline has passed and nothing matched.
    NoPrinter,
}

/// A hunt for a device: the best fallback seen so far.
#[derive(Debug)]
pub struct Hunt {
    pub search: Search,
    pub fallback: Option<(Seen, FallbackRank)>,
}

/// The fallback that a hunt holds.
pub open spec fn held_text(held: Option<(Seen, FallbackRank)>) -> Option<
    ((Option<Seq<char>>, Seq<char>), FallbackRank),
> {
    match held {
        Some((d, r)) => Some((d@, r)),
        None => None,
    }
}

/// The fallback after a pass that found no exact match.
pub open spec fn upgraded(
    held: Option<((Option<Seq<char>>, Seq<char>), FallbackRank)>,
    found: Option<((Option<Seq<char>>, Seq<char>), FallbackRank)>,
) -> Option<((Option<Seq<char>>, Seq<char>), FallbackRank)> {
    match found {
        Some((d, r)) => match held {
            Some((h, hr)) => if r.beats(hr) {
                found
            } else {
                held
            },
            None => found,
        },
        None => held,
    }
}

/// What a hunt holds and does after a pass over the devices, given what the
/// pass found.
pub open spec fn is_hunt_step(
    before: Option<((Option<Seq<char>>, Seq<char>), FallbackRank)>,
    seen: Seq<(Option<Seq<char>>, Seq<char>)>,
    pick: Pick,
    deadline_passed: bool,
    after: Option<((Option<Seq<char>>, Seq<char>), FallbackRank)>,
    verdict: Verdict,
) -> bool {
    match pick {
        Pick::Exact(i) => after == before && (verdict matches Verdict::Take(d) && d@ == seen[i]),
        _ => {
            let found = match pick {
                Pick::Fallback(i, r) => Some((seen[i], r)),
                _ => None,
            };
            &&& after == upgraded(before, found)
            &&& if !deadline_passed {
                verdict is KeepLooking
            } else {
                match after {
                    Some((d, _)) => verdict matches Verdict::Take(t) && t@ == d,
                    None => verdict is NoPrinter,
                }
            }
        },
    }
}

impl Hunt {
    pub fn new(search: Search) -> (hunt: Self)
        ensures
            hunt.search == search,
            hunt.fallback is None,
    {
        Hunt { search, fallback: None }
    }

    /// Look through the devices in range. An exact match is taken at once; a
    /// fallback only when the scan deadline has passed.
    pub fn step(&mut self, seen: &Vec<Seen>, deadline_passed: bool) -> (verdict: Verdict)
        ensures
            final(self).search == old(self).search,
            exists|pick: Pick| #[trigger]
                is_pick(devices(seen@), old(self).search.target@, old(self).search.only, pick)
                    && is_hunt_step(
                    held_text(old(self).fallback),
                    devices(seen@),
                    pick,
                    deadline_passed,
                    held_text(final(self).fallback),
                    verdict,
                ),
    {
        let ghost all = devices(seen@);
        let ghost aim = self.search.target@;
        let ghost only = self.search.only;
        let (exact, found) = find_match(seen, &self.search.target, self.search.only);
        if let Some(i) = exact {
            assert(is_pick(all, aim, only, Pick::Exact(i as int)));
            assert(all[i as int] == seen@[i as int]@);
            return Verdict::Take(seen[i].clone());
        }
        let ghost pick = match found {
            Some((i, r)) => Pick::Fallback(i as int, r),
            None => Pick::Nothing,
        };
        assert(is_pick(all, aim, only, pick));
        // Upgrade the held fallback when a better-ranked candidate appears.
        if let Some((i, rank)) = found {
            assert(all[i as int] == seen@[i as int]@);
            let better: bool = match &self.fallback {
                Some((_, held)) => rank.is_better_than(*held),
                None => true,
            };
            if better {
                self.fallback = Some((seen[i].clone(), rank));
            }
        }
        if !deadline_passed {
            return Verdict::KeepLooking;
        }
        match &self.fallback {
            Some((d, _)) => Verdict::Take(d.clone()),
            None => Verdict::NoPrinter,
        }
    }
}

/// The model that a device is driven as: what its name says, or else LX-D02.
pub fn driven_as(name: &str) -> (model: PrinterModel)
    ensures
        model == match model_of_name(name@) {
            Some(m) => m,
            None => PrinterModel::LxD02,
        },
{
    match PrinterModel::from_device_name(name) {
        Some(m) => m,
        None => PrinterModel::LxD02,
    }
}

/// The supported printers in a list, with their place in it.
pub open spec fn is_scan_of(
    seen: Seq<(Option<Seq<char>>, Seq<char>)>,
    found: Seq<(Option<Seq<char>>, Seq<char>)>,
) -> bool {
    found == seen.filter(
        |d: (Option<Seq<char>>, Seq<char>)|
            d.0 matches Some(name) && model_of_name(name) is Some,
    )
}

/// Every supported printer among the devices in range, in their order.
pub fn supported(seen: &Vec<Seen>) -> (found: Vec<Seen>)
    ensures
        is_scan_of(devices(seen@), devices(found@)),
{
    let ghost keep = |d: (Option<Seq<char>>, Seq<char>)|
        d.0 matches Some(name) && model_of_name(name) is Some;
    let mut found: Vec<Seen> = Vec::new();
    let mut k: usize = 0;
    proof {
        reveal(Seq::filter);
        assert(devices(seen@).take(0) =~= Seq::empty());
    }
    while k < seen.len()
        invariant
            k <= seen@.len(),
            keep == (|d: (Option<Seq<char>>, Seq<char>)|
                d.0 matches Some(name) && model_of_name(name) is Some),
            devices(found@) == devices(seen@).take(k as int).filter(keep),
        decreases seen@.len() - k,
    {
        let ghost all = devices(seen@);
        proof {
            assert(all.take(k + 1) =~= all.take(k as int).push(all[k as int]));
            assert(all.take(k + 1).drop_last() =~= all.take(k as int));
            reveal(Seq::filter);
        }
        let target: Target = Target::AnySupported;
        assert(all[k as int] == seen@[k as int]@);
        if match_target(&seen[k], &target, None).is_some() {
            let ghost before = devices(found@);
            found.push(seen[k].clone());
            assert(devices(found@) =~= before.push(all[k as int]));
        }
        k = k + 1;
    }
    assert(devices(seen@).take(k as int) =~= devices(seen@));
    found
}

/// Whether a device is a supported printer.
pub open spec fn is_supported(dev: (Option<Seq<char>>, Seq<char>)) -> bool {
    dev.0 matches Some(name) && model_of_name(name) is Some
}

/// The places of the supported printers among the first `n` devices, or of all
/// others.
pub open spec fn places_of(
    seen: Seq<(Option<Seq<char>>, Seq<char>)>,
    printers: bool,
    n: int,
) -> Seq<usize>
    decreases n,
{
    if n <= 0 {
        Seq::empty()
    } else if is_supported(seen[n - 1]) == printers {
        places_of(seen, printers, n - 1).push((n - 1) as usize)
    } else {
        places_of(seen, printers, n - 1)
    }
}

fn push_places(order: &mut Vec<usize>, seen: &Vec<Seen>, printers: bool)
    ensures
        final(order)@ == old(order)@ + places_of(devices(seen@), printers, seen@.len() as int),
{
    let ghost all = devices(seen@);
    let ghost before = order@;
    let mut k: usize = 0;
    assert(order@ =~= before + places_of(all, printers, 0));
    while k < seen.len()
        invariant
            k <= seen@.len(),
            all == devices(seen@),
            order@ == before + places_of(all, printers, k as int),
        decreases seen@.len() - k,
    {
        let known: bool = match &seen[k].name {
            Some(name) => PrinterModel::from_device_name(name.as_str()).is_some(),
            None => false,
        };
        assert(known == is_supported(all[k as int]));
        if known == printers {
            order.push(k);
        }
        k = k + 1;
        assert(order@ =~= before + places_of(all, printers, k as int));
    }
}

/// The order in which everything in range is listed: supported printers first.
pub fn listing_order(seen: &Vec<Seen>) -> (order: Vec<usize>)
    ensures
        order@ == places_of(devices(seen@), true, seen@.len() as int) + places_of(
            devices(seen@),
            false,
            seen@.len() as int,
        ),
{
    let mut order: Vec<usize> = Vec::new();
    push_places(&mut order, seen, true);
    push_places(&mut order, seen, false);
    order
}

/// Under a model restriction nothing of another model is ever taken.
pub proof fn restriction_holds_for_every_rank(
    dev: (Option<Seq<char>>, Seq<char>),
    aim: Aim,
    only: PrinterModel,
)
    requires
        match_of(dev, aim, Some(only)) is Some,
    ensures
        dev.0 matches Some(name) && model_of_name(name) == Some(only),
{
}

/// The saved device is found again by its id, whatever else is in range: no
/// restriction that comes from the record itself can hide it.
pub proof fn a_remembered_device_is_found_again(
    id: Seq<char>,
    name: Seq<char>,
    others: Seq<(Option<Seq<char>>, Seq<char>)>,
    at: int,
    pick: Pick,
)
    requires
        0 <= at < others.len(),
        others[at] == (Some(name), id),
        ({
            let saved = crate::config::record_of(id, name, model_of_name(name));
            is_pick(others, aim_for(None, Some(saved)), only_for(None, Some(saved), None), pick)
        }),
    ensures
        pick matches Pick::Exact(i) && others[i].1 == id,
{
    let saved = crate::config::record_of(id, name, model_of_name(name));
    let aim = aim_for(None, Some(saved));
    let only = only_for(None, Some(saved), None);
    if model_of_name(name) is Some {
        crate::model::word_round_trip(model_of_name(name)->0);
    }
    assert(exact_at(others, aim, only, at));
    assert(match_of(others[at], aim, only) is Some);
}

/// A device is only ever taken before the deadline if it is an exact match.
pub proof fn fallbacks_wait_for_the_deadline(
    before: Option<((Option<Seq<char>>, Seq<char>), FallbackRank)>,
    seen: Seq<(Option<Seq<char>>, Seq<char>)>,
    pick: Pick,
    after: Option<((Option<Seq<char>>, Seq<char>), FallbackRank)>,
    verdict: Verdict,
)
    requires
        is_hunt_step(before, seen, pick, false, after, verdict),
    ensures
        verdict is Take <==> pick is Exact,
{
}

/// A device with the saved name is never given up for one without.
pub proof fn the_saved_name_stays_preferred(
    dev: (Option<Seq<char>>, Seq<char>),
    found: Option<((Option<Seq<char>>, Seq<char>), FallbackRank)>,
)
    ensures
        upgraded(Some((dev, FallbackRank::SavedName)), found) == Some(
            (dev, FallbackRank::SavedName),
        ),
{
}

} // verus!
