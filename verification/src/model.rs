//! The printer models this workspace can drive, and the per-model facts the
//! transports need. Values, not behavior: keeping UUIDs and name prefixes
//! here lets the CLI, server, and browser share one source of truth.

use crate::strings::{begins_with, same_text, to_small_letters};
use vstd::prelude::*;
#[allow(unused_imports)]
use crate::strings::{has_prefix, small_letters};

verus! {

#[derive(Debug, Clone, Copy, PartialEq, Eq, Structural)]
pub enum PrinterModel {
    /// LX-D02 / LX-D2.
    LxD02,
    /// X6/X6h "cat printer" family.
    X6,
}

/// The model that an advertised name stands for.
pub open spec fn model_of_name(name: Seq<char>) -> Option<PrinterModel> {
    if has_prefix(name, "LX"@) {
        Some(PrinterModel::LxD02)
    } else if has_prefix(name, "X6h-"@) || has_prefix(name, "x6h-"@) {
        Some(PrinterModel::X6)
    } else {
        None
    }
}

/// The model that a word of the command line or the config file stands for.
pub open spec fn model_of_word(word: Seq<char>) -> Option<PrinterModel> {
    if word == "lx-d02"@ {
        Some(PrinterModel::LxD02)
    } else if word == "x6"@ {
        Some(PrinterModel::X6)
    } else {
        None
    }
}

impl PrinterModel {
    /// The word for a model.
    pub open spec fn word(self) -> Seq<char> {
        match self {
            PrinterModel::LxD02 => "lx-d02"@,
            PrinterModel::X6 => "x6"@,
        }
    }

    /// Infer the model from a BLE advertised name, if it looks like a
    /// printer we support. `X6h-` matches case-insensitively on the prefix's
    /// first letter only: `X6H` (capital H) is a distinct model, so it is
    /// deliberately not claimed here.
    pub fn from_device_name(name: &str) -> (model: Option<Self>)
        ensures
            model == model_of_name(name@),
    {
        if begins_with(name, "LX") {
            Some(PrinterModel::LxD02)
        } else if begins_with(name, "X6h-") || begins_with(name, "x6h-") {
            Some(PrinterModel::X6)
        } else {
            None
        }
    }

    pub fn service_uuid16(self) -> (uuid: u16)
        ensures
            uuid == match self {
                PrinterModel::LxD02 => 0xFFE6u16,
                PrinterModel::X6 => 0xAE30u16,
            },
    {
        match self {
            PrinterModel::LxD02 => 0xFFE6,
            PrinterModel::X6 => 0xAE30,
        }
    }

    pub fn write_char_uuid16(self) -> (uuid: u16)
        ensures
            uuid == match self {
                PrinterModel::LxD02 => 0xFFE1u16,
                PrinterModel::X6 => 0xAE01u16,
            },
    {
        match self {
            PrinterModel::LxD02 => 0xFFE1,
            PrinterModel::X6 => 0xAE01,
        }
    }

    pub fn notify_char_uuid16(self) -> (uuid: u16)
        ensures
            uuid == match self {
                PrinterModel::LxD02 => 0xFFE2u16,
                PrinterModel::X6 => 0xAE02u16,
            },
    {
        match self {
            PrinterModel::LxD02 => 0xFFE2,
            PrinterModel::X6 => 0xAE02,
        }
    }

    /// The word for a model, as the config file and the tables show it.
    pub fn name(self) -> (text: String)
        ensures
            text@ == self.word(),
    {
        match self {
            PrinterModel::LxD02 => "lx-d02".to_owned(),
            PrinterModel::X6 => "x6".to_owned(),
        }
    }

    /// The model for a word; the error says which words there are.
    pub fn parse(s: &str) -> (model: Result<Self, String>)
        ensures
            model is Ok <==> model_of_word(s@) is Some,
            model matches Ok(m) ==> model_of_word(s@) == Some(m),
            model matches Err(e) ==> e@ == "unknown printer model '"@ + s@
                + "' (expected 'lx-d02' or 'x6')"@,
    {
        if same_text(s, "lx-d02") {
            Ok(PrinterModel::LxD02)
        } else if same_text(s, "x6") {
            Ok(PrinterModel::X6)
        } else {
            let mut e: String = "unknown printer model '".to_owned();
            e.append(s);
            e.append("' (expected 'lx-d02' or 'x6')");
            Err(e)
        }
    }

    /// The model for a command-line word, in any mix of small and capital
    /// letters.
    pub fn parse_flag(s: &str) -> (model: Result<Self, String>)
        ensures
            model is Ok <==> model_of_word(small_letters(s@)) is Some,
            model matches Ok(m) ==> model_of_word(small_letters(s@)) == Some(m),
            model matches Err(e) ==> e@ == "unknown printer model '"@ + small_letters(s@)
                + "' (expected 'lx-d02' or 'x6')"@,
    {
        PrinterModel::parse(to_small_letters(s).as_str())
    }
}

impl std::str::FromStr for PrinterModel {
    type Err = String;

    fn from_str(s: &str) -> Result<Self, String> {
        PrinterModel::parse(s)
    }
}

/// A model is read back from its word.
pub proof fn word_round_trip(model: PrinterModel)
    ensures
        model_of_word(model.word()) == Some(model),
{
    reveal_strlit("lx-d02");
    reveal_strlit("x6");
    assert("lx-d02"@.len() == 6 && "x6"@.len() == 2);
}

/// No name is claimed by both families.
pub proof fn families_do_not_overlap(name: Seq<char>)
    ensures
        !(has_prefix(name, "LX"@) && (has_prefix(name, "X6h-"@) || has_prefix(name, "x6h-"@))),
{
    reveal_strlit("LX");
    reveal_strlit("X6h-");
    reveal_strlit("x6h-");
    if has_prefix(name, "LX"@) {
        assert(name.take(2)[0] == 'L');
        assert(name[0] == 'L');
    }
    if has_prefix(name, "X6h-"@) {
        assert(name.take(4)[0] == 'X');
    }
    if has_prefix(name, "x6h-"@) {
        assert(name.take(4)[0] == 'x');
    }
}

} // verus!
