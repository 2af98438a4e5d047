use vstd::prelude::*;
use vstd::string::StringExecFns;

verus! {

/// Addition capped at `u32::MAX`, the arithmetic the audit counters
/// use so that merging can never abort.
pub open spec fn sat32(a: int, b: int) -> int {
    if a + b > u32::MAX {
        u32::MAX as int
    } else {
        a + b
    }
}

/// Saturating counter addition.
pub fn sat_add_u32(a: u32, b: u32) -> (r: u32)
    ensures
        r as int == sat32(a as int, b as int),
{
    if a <= u32::MAX - b {
        a + b
    } else {
        u32::MAX
    }
}

/// One recorded load failure: the source file, the offending line (or
/// empty when the failure is not tied to a line's text), and a
/// message.
pub struct PriceLoadError {
    pub file_name: String,
    pub line: String,
    pub error: String,
}

impl PriceLoadError {
    /// The error as a triple of character sequences.
    pub open spec fn model(self) -> (Seq<char>, Seq<char>, Seq<char>) {
        (self.file_name@, self.line@, self.error@)
    }

    /// A field-by-field copy.
    pub fn duplicate(&self) -> (r: PriceLoadError)
        ensures
            r == *self,
    {
        PriceLoadError {
            file_name: self.file_name.clone(),
            line: self.line.clone(),
            error: self.error.clone(),
        }
    }
}

/// The diagnostic lines of the first `k` recorded errors, each as
/// `\n\t<file>:<line>: <message>`.
pub open spec fn error_lines_text(
    errs: Seq<(Seq<char>, Seq<char>, Seq<char>)>,
    k: int,
) -> Seq<char>
    decreases k,
{
    if k <= 0 {
        Seq::<char>::empty()
    } else {
        error_lines_text(errs, k - 1) + "\n\t"@ + errs[k - 1].0 + ":"@ + errs[k - 1].1 + ": "@
            + errs[k - 1].2
    }
}

/// The rendered audit: the two counts, and the error lines when any
/// error was recorded.
pub open spec fn audit_summary_spec(
    cars: u32,
    motos: u32,
    errs: Seq<(Seq<char>, Seq<char>, Seq<char>)>,
) -> Seq<char> {
    let head = "Loaded "@ + crate::text::dec_digits(cars as int) + " cars and "@
        + crate::text::dec_digits(motos as int) + " motorcycles"@;
    if errs.len() > 0 {
        head + "\nErrors:"@ + error_lines_text(errs, errs.len() as int)
    } else {
        head
    }
}

/// Accumulates what a loading pass achieved: how many prices each
/// category received, and every per-record failure in encounter
/// order.  Merging never drops prior entries.
pub struct PriceLoadAudit {
    pub loaded_cars: u32,
    pub loaded_motorcycles: u32,
    pub error: Vec<PriceLoadError>,
}

impl PriceLoadAudit {
    pub fn new() -> (r: PriceLoadAudit)
        ensures
            r.loaded_cars == 0,
            r.loaded_motorcycles == 0,
            r.error@ =~= Seq::<PriceLoadError>::empty(),
    {
        PriceLoadAudit { loaded_cars: 0, loaded_motorcycles: 0, error: Vec::new() }
    }

    /// Renders the audit as text: the counts, then one indented
    /// `file:line: message` line per recorded error.
    pub fn summary(&self) -> (r: String)
        ensures
            r@ == audit_summary_spec(
                self.loaded_cars,
                self.loaded_motorcycles,
                self.error@.map_values(|e: PriceLoadError| e.model()),
            ),
    {
        let ghost errs = self.error@.map_values(|e: PriceLoadError| e.model());
        let mut m = String::new();
        m.append("Loaded ");
        let cars = crate::text::u32_to_string(self.loaded_cars);
        m.append(cars.as_str());
        m.append(" cars and ");
        let motos = crate::text::u32_to_string(self.loaded_motorcycles);
        m.append(motos.as_str());
        m.append(" motorcycles");
        if self.error.len() > 0 {
            m.append("\nErrors:");
            let ghost head = m@;
            let mut i: usize = 0;
            while i < self.error.len()
                invariant
                    0 <= i <= self.error@.len(),
                    errs == self.error@.map_values(|e: PriceLoadError| e.model()),
                    m@ == head + error_lines_text(errs, i as int),
                decreases self.error@.len() - i,
            {
                m.append("\n\t");
                m.append(self.error[i].file_name.as_str());
                m.append(":");
                m.append(self.error[i].line.as_str());
                m.append(": ");
                m.append(self.error[i].error.as_str());
                i += 1;
            }
        }
        m
    }

    /// Adds `audit` to this one: counters sum (saturating) and the
    /// error list of `audit` is appended after the existing entries.
    pub fn merge(&mut self, audit: &PriceLoadAudit)
        ensures
            final(self).loaded_cars as int == sat32(
                old(self).loaded_cars as int,
                audit.loaded_cars as int,
            ),
            final(self).loaded_motorcycles as int == sat32(
                old(self).loaded_motorcycles as int,
                audit.loaded_motorcycles as int,
            ),
            final(self).error@ == old(self).error@ + audit.error@,
    {
        self.loaded_cars = sat_add_u32(self.loaded_cars, audit.loaded_cars);
        self.loaded_motorcycles = sat_add_u32(self.loaded_motorcycles, audit.loaded_motorcycles);
        let mut i: usize = 0;
        let ghost orig = self.error@;
        let ghost lc = self.loaded_cars;
        let ghost lm = self.loaded_motorcycles;
        while i < audit.error.len()
            invariant
                0 <= i <= audit.error@.len(),
                self.error@ == orig + audit.error@.take(i as int),
                self.loaded_cars == lc,
                self.loaded_motorcycles == lm,
            decreases audit.error@.len() - i,
        {
            self.error.push(audit.error[i].duplicate());
            proof {
                assert(orig + audit.error@.take(i as int) + seq![audit.error@[i as int]] =~= orig
                    + audit.error@.take(i + 1));
            }
            i += 1;
        }
        proof {
            assert(orig + audit.error@.take(audit.error@.len() as int) =~= orig + audit.error@);
        }
    }
}

} // verus!
