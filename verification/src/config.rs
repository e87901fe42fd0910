//! What the config file remembers: the last printer we connected to, so
//! subsequent runs can reconnect to the same device without `--device`.

use crate::model::PrinterModel;
use crate::strings::same_text;
use vstd::prelude::*;

verus! {

/// The whole of the config file.
#[derive(Debug, Clone, Default)]
pub struct Config {
    /// The printer from the last successful connection, if any.
    pub device: Option<SavedDevice>,
}

/// A previously connected printer, identified by its platform peripheral id.
#[derive(Debug, Clone, PartialEq, Eq)]
pub struct SavedDevice {
    pub id: String,
    pub name: String,
    /// The word for the model that the advertised name identified, if any.
    pub model: Option<String>,
}

/// A saved device as plain text.
#[verifier::ext_equal]
pub struct DeviceText {
    pub id: Seq<char>,
    pub name: Seq<char>,
    pub model: Option<Seq<char>>,
}

/// The text of an optional word.
pub open spec fn word_text(word: Option<String>) -> Option<Seq<char>> {
    match word {
        Some(w) => Some(w@),
        None => None,
    }
}

impl View for SavedDevice {
    type V = DeviceText;

    open spec fn view(&self) -> DeviceText {
        DeviceText { id: self.id@, name: self.name@, model: word_text(self.model) }
    }
}

impl View for Config {
    type V = Option<DeviceText>;

    open spec fn view(&self) -> Option<DeviceText> {
        match self.device {
            Some(d) => Some(d@),
            None => None,
        }
    }
}

/// Whether two optional words are the same.
fn same_word(a: &Option<String>, b: &Option<String>) -> (same: bool)
    ensures
        same == (word_text(*a) == word_text(*b)),
{
    match (a, b) {
        (Some(x), Some(y)) => same_text(x.as_str(), y.as_str()),
        (None, None) => true,
        _ => false,
    }
}

impl SavedDevice {
    /// Whether two records say the same.
    pub fn same(&self, other: &SavedDevice) -> (same: bool)
        ensures
            same == (self@ == other@),
    {
        same_text(self.id.as_str(), other.id.as_str()) && same_text(
            self.name.as_str(),
            other.name.as_str(),
        ) && same_word(&self.model, &other.model)
    }
}

/// The record for a connected printer.
pub open spec fn record_of(
    id: Seq<char>,
    name: Seq<char>,
    detected: Option<PrinterModel>,
) -> DeviceText {
    DeviceText {
        id,
        name,
        model: match detected {
            Some(m) => Some(m.word()),
            None => None,
        },
    }
}

/// The [`SavedDevice`] a connected printer is remembered as.
///
/// Saves the model the advertised name *identified*, not the model the
/// connection was driven as: an explicit `--device` filter can match a name
/// no model claims, and the LX-D02 that is then assumed is a guess. Recording
/// that guess would make the next flagless run restrict its scan to LX-D02 — a
/// restriction the unclaimed name can never satisfy, so the saved device would
/// become permanently unreachable. Saving `None` instead leaves the reconnect
/// to name detection and saved-id matching, exactly as before models were
/// remembered.
///
/// A device saved before model support existed reconnects with `model: None`
/// on file; if its name identifies a model, it is re-saved once to gain the
/// field.
pub fn device_record(id: String, name: &str, detected: Option<PrinterModel>) -> (record:
    SavedDevice)
    ensures
        record@ == record_of(id@, name@, detected),
{
    let model: Option<String> = match detected {
        Some(m) => Some(m.name()),
        None => None,
    };
    SavedDevice { id, name: name.to_owned(), model }
}

impl Config {
    /// Remember a connected printer, if it changed. Returns whether the
    /// config file has to be written again.
    pub fn remember(&mut self, id: String, name: &str, detected: Option<PrinterModel>) -> (changed:
        bool)
        ensures
            final(self)@ == Some(record_of(id@, name@, detected)),
            changed == (old(self)@ != Some(record_of(id@, name@, detected))),
    {
        let current: SavedDevice = device_record(id, name, detected);
        let known: bool = match &self.device {
            Some(d) => d.same(&current),
            None => false,
        };
        if !known {
            self.device = Some(current);
        }
        !known
    }
}

/// The record of a printer keeps its id and its name, and a word for the model that
/// was detected; two printers that differ in any of these have different records.
pub proof fn printers_have_their_own_records(
    id: Seq<char>,
    name: Seq<char>,
    detected: Option<PrinterModel>,
    other_id: Seq<char>,
    other_name: Seq<char>,
    other_detected: Option<PrinterModel>,
)
    ensures
        record_of(id, name, detected).id == id,
        record_of(id, name, detected).name == name,
        record_of(id, name, detected).model == match detected {
            None => None,
            Some(PrinterModel::LxD02) => Some(seq!['l', 'x', '-', 'd', '0', '2']),
            Some(PrinterModel::X6) => Some(seq!['x', '6']),
        },
        record_of(id, name, detected) == record_of(other_id, other_name, other_detected) ==> id
            == other_id && name == other_name && detected == other_detected,
{
    reveal_strlit("lx-d02");
    reveal_strlit("x6");
    assert("lx-d02"@ =~= seq!['l', 'x', '-', 'd', '0', '2']);
    assert("x6"@ =~= seq!['x', '6']);
    assert(seq!['l', 'x', '-', 'd', '0', '2'].len() == 6 && seq!['x', '6'].len() == 2);
}

} // verus!
