//! What is said when a document has been written.

use vstd::prelude::*;

use crate::rounding::{
    decimal_text, law_nearest_is_near, law_rounding_is_off_by_half_at_most, nearest, nearest_of,
    one_decimal, round_even, rounded,
};
use crate::text::{decimal, decimal_of};

verus! {

/// What the integer in a single-precision number stays below: it has 24 bits.
pub const SINGLE: u64 = 0x100_0000;

/// How often a size is divided by 1024: as long as it is not below it, but no more
/// than three times.
pub open spec fn magnitude(size: nat) -> nat {
    if size < 1024 {
        0
    } else if size < 1024 * 1024 {
        1
    } else if size < 1024 * 1024 * 1024 {
        2
    } else {
        3
    }
}

pub open spec fn unit_of(magnitude: nat) -> nat {
    if magnitude == 0 {
        1
    } else if magnitude == 1 {
        1024
    } else if magnitude == 2 {
        1024 * 1024
    } else {
        1024 * 1024 * 1024
    }
}

pub open spec fn suffix_of(magnitude: nat) -> Seq<char> {
    if magnitude == 0 {
        "B"@
    } else if magnitude == 1 {
        "KiB"@
    } else if magnitude == 2 {
        "MiB"@
    } else {
        "GiB"@
    }
}

/// A size in bytes, or to one decimal in the largest unit that it reaches, as a
/// single-precision number is shown.
pub open spec fn size_text(size: nat) -> Seq<char> {
    if size < 1024 {
        decimal(size) + "B"@
    } else {
        let single = nearest(size, SINGLE as nat);
        let m = magnitude(single);
        one_decimal(round_even(10 * single, unit_of(m))) + suffix_of(m)
    }
}

pub fn format_size(size: u64) -> (text: String)
    ensures
        text@ == size_text(size as nat),
{
    if size < 1024 {
        let mut text = decimal_of(size);
        text.append("B");
        return text;
    }
    let single = nearest_of(size, SINGLE);
    assert(1024 <= single) by {
        assert(size < SINGLE ==> single == size);
        assert(SINGLE == 0x100_0000);
    }
    let (unit, suffix): (u128, &str) = if single < 1024 * 1024 {
        (1024, "KiB")
    } else if single < 1024 * 1024 * 1024 {
        (1024 * 1024, "MiB")
    } else {
        (1024 * 1024 * 1024, "GiB")
    };
    let tenths = rounded(10 * single, unit);
    proof {
        assert((10 * single) / unit as int <= 10 * single / 1024) by (nonlinear_arith)
            requires
                unit >= 1024,
        ;
    }
    let mut text = decimal_text(tenths);
    text.append(suffix);
    text
}

/// A document that has been written.
#[derive(Debug)]
pub struct SavedDocument {
    /// Its path, as it is shown.
    pub path: String,
    pub lines: usize,
    /// How many bytes it has.
    pub size: u64,
}

/// What is done when a document has been written, or could not be.
#[derive(Debug)]
pub enum SaveStep {
    Error(String),
    /// The document is not known any more.
    Unknown,
    /// The revision is noted, and the status line says what was written.
    Saved(String),
}

pub open spec fn written(doc: SavedDocument) -> Seq<char> {
    "'"@ + doc.path@ + "' written, "@ + decimal(doc.lines as nat) + "L "@ + size_text(
        doc.size as nat,
    )
}

/// What is done when a document has been written, or could not be.
pub fn handle_document_write(event: &Result<SavedDocument, String>, is_known: bool) -> (step: SaveStep)
    ensures
        match event {
            Err(error) => step matches SaveStep::Error(text) && text@ == error@,
            Ok(doc) => if is_known {
                step matches SaveStep::Saved(text) && text@ == written(*doc)
            } else {
                step == SaveStep::Unknown
            },
        },
{
    match event {
        Err(error) => SaveStep::Error(error.clone()),
        Ok(doc) => {
            if !is_known {
                return SaveStep::Unknown;
            }
            let mut text = "'".to_string();
            text.append(doc.path.as_str());
            text.append("' written, ");
            text.append(decimal_of(doc.lines as u64).as_str());
            text.append("L ");
            text.append(format_size(doc.size).as_str());
            SaveStep::Saved(text)
        },
    }
}

/// A size is shown in the largest unit that it reaches. A size that a single-precision
/// number holds is shown to the nearest tenth of it.
pub proof fn law_size_is_shown_in_its_unit(size: nat)
    requires
        1024 <= size < 0x100_0000,
    ensures
        size < 1024 * 1024 ==> exists|tenths: nat|
            size_text(size) == #[trigger] one_decimal(tenths) + "KiB"@ && 2 * (10 * size - 1024
                * tenths) <= 1024 && 2 * (1024 * tenths - 10 * size) <= 1024,
        size >= 1024 * 1024 ==> exists|tenths: nat|
            size_text(size) == #[trigger] one_decimal(tenths) + "MiB"@ && 2 * (10 * size - 1024
                * 1024 * tenths) <= 1024 * 1024 && 2 * (1024 * 1024 * tenths - 10 * size) <= 1024
                * 1024,
{
    law_nearest_is_near(size, SINGLE as nat);
    let unit = unit_of(magnitude(size));
    let tenths = round_even(10 * size, unit);
    law_rounding_is_off_by_half_at_most(10 * size, unit);
    if size < 1024 * 1024 {
        assert(size_text(size) == one_decimal(tenths) + "KiB"@);
    } else {
        assert(unit == 1024 * 1024);
        assert(tenths * unit == 1024 * 1024 * tenths) by (nonlinear_arith)
            requires
                unit == 1024 * 1024,
        ;
        assert(size_text(size) == one_decimal(tenths) + "MiB"@);
    }
}

/// A size below a kibibyte is shown in bytes, and one of two gibibytes or more in
/// gibibytes.
pub proof fn law_sizes_end_with_their_unit(size: nat)
    ensures
        size < 1024 ==> size_text(size) == decimal(size) + "B"@,
        size >= 2 * 1024 * 1024 * 1024 ==> exists|tenths: nat|
            size_text(size) == #[trigger] one_decimal(tenths) + "GiB"@,
{
    if size >= 2 * 1024 * 1024 * 1024 {
        let single = nearest(size, SINGLE as nat);
        law_nearest_is_near(size, SINGLE as nat);
        assert(size_text(size) == one_decimal(round_even(10 * single, 1024 * 1024 * 1024))
            + "GiB"@);
    }
}

/// What was written is told by its path, its lines and its size.
pub proof fn law_written_document_is_told(doc: SavedDocument)
    ensures
        written(doc) == "'"@ + doc.path@ + "' written, "@ + decimal(doc.lines as nat) + "L "@
            + size_text(doc.size as nat),
{
}

} // verus!
