//! Telling how much of the slab of strings is in use.

use crate::hash_interner::{MemoryUsageFraction, MemoryUsageReport};
use crate::strings::{decimal, decimal_text};
use vstd::prelude::*;
use vstd::string::StringExecFns;

verus! {

impl MemoryUsageFraction {
    /// The fraction, as it is shown.
    pub open spec fn shown(self) -> Seq<char> {
        decimal(self.numer as nat) + " / "@ + decimal(self.denom as nat)
    }

    pub fn text(&self) -> (r: String)
        ensures
            r@ == self.shown(),
    {
        let mut r: String = decimal_text(self.numer);
        r.append(" / ");
        r.append(decimal_text(self.denom).as_str());
        r
    }
}

impl MemoryUsageReport {
    /// Bytes in use of all parts.
    pub open spec fn used(self) -> int {
        self.bytes.numer + self.strings.numer + self.components.numer + self.hashes.numer
    }

    /// Bytes of all parts.
    pub open spec fn size(self) -> int {
        self.bytes.denom + self.strings.denom + self.components.denom + self.hashes.denom
    }

    /// All parts together.
    pub fn total(&self) -> (r: MemoryUsageFraction)
        requires
            self.used() <= usize::MAX,
            self.size() <= usize::MAX,
        ensures
            r.numer == self.used(),
            r.denom == self.size(),
    {
        MemoryUsageFraction {
            numer: self.bytes.numer + self.strings.numer + self.components.numer + self.hashes.numer,
            denom: self.bytes.denom + self.strings.denom + self.components.denom + self.hashes.denom,
        }
    }

    /// The report, as it is shown, up to how much of everything is in use.
    pub fn text(&self) -> (r: String)
        requires
            self.used() <= usize::MAX,
            self.size() <= usize::MAX,
        ensures
            r@ == "Memory Usage Report:\n\tTOTAL SIZE:      "@ + decimal(self.total_blob_size as nat)
                + "b\n\tTEXT:            "@ + self.bytes.shown() + "\n\tSTRING SLICES:   "@
                + self.strings.shown() + "\n\tHASH COMPONENTS: "@ + self.components.shown()
                + "\n\tHASH SLICES:     "@ + self.hashes.shown() + "\n\tTOTAL CONSUMED:  "@
                + (MemoryUsageFraction {
                numer: self.used() as usize,
                denom: self.size() as usize,
            }).shown(),
    {
        let mut r: String = String::from_str("Memory Usage Report:\n\tTOTAL SIZE:      ");
        r.append(decimal_text(self.total_blob_size).as_str());
        r.append("b\n\tTEXT:            ");
        r.append(self.bytes.text().as_str());
        r.append("\n\tSTRING SLICES:   ");
        r.append(self.strings.text().as_str());
        r.append("\n\tHASH COMPONENTS: ");
        r.append(self.components.text().as_str());
        r.append("\n\tHASH SLICES:     ");
        r.append(self.hashes.text().as_str());
        r.append("\n\tTOTAL CONSUMED:  ");
        r.append(self.total().text().as_str());
        r
    }
}

/// What is in use of all parts is what is in use of each: using more of one part by some bytes uses that many
/// more of all. The same holds for what there is.
pub proof fn law_usage(report: MemoryUsageReport, part: MemoryUsageFraction)
    ensures
        (MemoryUsageReport { bytes: part, ..report }).used() - part.numer == report.used()
            - report.bytes.numer,
        (MemoryUsageReport { strings: part, ..report }).used() - part.numer == report.used()
            - report.strings.numer,
        (MemoryUsageReport { components: part, ..report }).used() - part.numer == report.used()
            - report.components.numer,
        (MemoryUsageReport { hashes: part, ..report }).used() - part.numer == report.used()
            - report.hashes.numer,
        (MemoryUsageReport { bytes: part, ..report }).size() - part.denom == report.size()
            - report.bytes.denom,
        (MemoryUsageReport { strings: part, ..report }).size() - part.denom == report.size()
            - report.strings.denom,
        (MemoryUsageReport { components: part, ..report }).size() - part.denom == report.size()
            - report.components.denom,
        (MemoryUsageReport { hashes: part, ..report }).size() - part.denom == report.size()
            - report.hashes.denom,
        part.shown() == decimal(part.numer as nat) + " / "@ + decimal(part.denom as nat),
{
}

} // verus!
