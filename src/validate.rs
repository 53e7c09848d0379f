//! Consistency rules on inferred units, and the resolution of a tab width.

use vstd::prelude::*;
use crate::gcd::{maybe_gcd, spec_maybe_gcd};
use crate::reduce::{
    nonzero_spaces, reduce, space_count_of, space_unit_of, spec_reduce, unit_by, IndentUnits,
};
use crate::sample::Sample;

verus! {

/// What the caller tells the validator besides the samples.
#[derive(Clone, Copy, Debug, PartialEq, Eq, Structural)]
pub enum Config {
    /// Infer everything from the samples.
    Inferred,
    /// The width of a tab, where the samples cannot tell it.
    DefaultTabWidth(u32),
    /// The expected number of spaces per indent level.
    IndentUnit(u32),
}

/// Configured widths are positive.
pub open spec fn config_wf(config: Config) -> bool {
    match config {
        Config::Inferred => true,
        Config::DefaultTabWidth(w) => w > 0,
        Config::IndentUnit(u) => u > 0,
    }
}

/// Why inferred units were rejected.
#[derive(Clone, Copy, Debug, PartialEq, Eq, Structural)]
pub enum IndentError {
    /// No indentation evidence at all.
    Indeterminate,
    /// The space indent is narrower than the configured unit.
    NarrowerThanUnit,
    /// The space indent is not a multiple of the configured unit.
    NotMultipleOfUnit,
    /// The space indent is too wide to tell apart from the tab width.
    TooWideForTab,
}

impl IndentError {
    /// Whether the error is one of the inconsistency rules, rather than a
    /// lack of evidence.
    pub fn is_inconsistent(&self) -> (r: bool)
        ensures
            r == !(*self is Indeterminate),
    {
        match self {
            IndentError::Indeterminate => false,
            _ => true,
        }
    }

    /// A human-readable description of the error.
    pub fn message(&self) -> (r: String)
        ensures
            r@ == error_text(*self)@,
    {
        let s: &str = match self {
            IndentError::Indeterminate => "indeterminate indentation",
            IndentError::NarrowerThanUnit => "space indent narrower than configured unit",
            IndentError::NotMultipleOfUnit => "space indent not a multiple of configured unit",
            IndentError::TooWideForTab => "space indent too wide relative to tab width",
        };
        String::from_str(s)
    }
}

/// The text of each error.
pub open spec fn error_text(e: IndentError) -> &'static str {
    match e {
        IndentError::Indeterminate => "indeterminate indentation",
        IndentError::NarrowerThanUnit => "space indent narrower than configured unit",
        IndentError::NotMultipleOfUnit => "space indent not a multiple of configured unit",
        IndentError::TooWideForTab => "space indent too wide relative to tab width",
    }
}

/// The tab width that mixed indentation is checked against: the configured
/// default, else twice the space unit (an approximation).
pub open spec fn implied_tab_width(units: IndentUnits, config: Config) -> nat {
    match config {
        Config::DefaultTabWidth(w) => w as nat,
        _ => (2 * units.space_unit) as nat,
    }
}

/// The validation rules, the first that fires deciding.
pub open spec fn spec_validate(units: IndentUnits, config: Config) -> Result<IndentUnits, IndentError> {
    if units.tab_unit == 0 && units.space_unit == 0 {
        Err(IndentError::Indeterminate)
    } else if config is IndentUnit && units.space_unit != 0 && units.space_unit
        < config->IndentUnit_0 {
        Err(IndentError::NarrowerThanUnit)
    } else if config is IndentUnit && units.space_unit != 0 && units.space_unit
        % config->IndentUnit_0 != 0 {
        Err(IndentError::NotMultipleOfUnit)
    } else if units.tab_unit != 0 && units.space_unit != 0 && implied_tab_width(units, config) <= 2
        * units.space_unit {
        Err(IndentError::TooWideForTab)
    } else {
        Ok(units)
    }
}

/// Checks inferred units against the consistency rules: no evidence at
/// all; a space indent narrower than, or not a multiple of, a configured
/// unit; a space indent too wide to tell apart from the tab width.
pub fn validate(units: IndentUnits, config: Config) -> (r: Result<IndentUnits, IndentError>)
    requires
        config_wf(config),
    ensures
        r == spec_validate(units, config),
{
    if units.tab_unit == 0 && units.space_unit == 0 {
        return Err(IndentError::Indeterminate);
    }
    match config {
        Config::IndentUnit(u) => {
            if units.space_unit != 0 && units.space_unit < u {
                return Err(IndentError::NarrowerThanUnit);
            }
            if units.space_unit != 0 && units.space_unit % u != 0 {
                return Err(IndentError::NotMultipleOfUnit);
            }
        },
        _ => {},
    }
    if units.tab_unit != 0 && units.space_unit != 0 {
        let tab_width: u64 = match config {
            Config::DefaultTabWidth(w) => w as u64,
            _ => 2 * (units.space_unit as u64),
        };
        if tab_width <= 2 * (units.space_unit as u64) {
            return Err(IndentError::TooWideForTab);
        }
    }
    Ok(units)
}

/// Reduces a sample set and validates the result.
pub fn infer_units(samples: &[Sample], config: Config) -> (r: Result<IndentUnits, IndentError>)
    requires
        config_wf(config),
    ensures
        r == spec_validate(spec_reduce(samples@), config),
{
    validate(reduce(samples), config)
}

/// An empty sample set is rejected as indeterminate, whatever the
/// configuration: it never passes for "unindented".
pub proof fn lemma_empty_is_indeterminate(config: Config)
    ensures
        spec_validate(spec_reduce(Seq::<Sample>::empty()), config) == Err::<IndentUnits, IndentError>(
            IndentError::Indeterminate,
        ),
{
}

/// Whatever validation accepts has some evidence.
pub proof fn lemma_accepted_has_evidence(units: IndentUnits, config: Config)
    requires
        spec_validate(units, config) is Ok,
    ensures
        spec_validate(units, config) == Ok::<IndentUnits, IndentError>(units),
        units.tab_unit != 0 || units.space_unit != 0,
{
}

/// Left fold of `maybe_gcd` over counts, from zero.
pub open spec fn unit_of_counts(xs: Seq<u32>) -> nat
    decreases xs.len(),
{
    if xs.len() == 0 {
        0
    } else {
        spec_maybe_gcd(unit_of_counts(xs.drop_last()), xs.last() as nat)
    }
}

/// The largest count, zero for none.
pub open spec fn max_of_counts(xs: Seq<u32>) -> nat
    decreases xs.len(),
{
    if xs.len() == 0 {
        0
    } else if xs.last() as nat > max_of_counts(xs.drop_last()) {
        xs.last() as nat
    } else {
        max_of_counts(xs.drop_last())
    }
}

/// Dropping the zero space counts does not change the space unit: the
/// presence-only evidence has the same space unit as the samples.
pub proof fn lemma_nonzero_spaces_unit(s: Seq<Sample>)
    ensures
        unit_of_counts(nonzero_spaces(s)) == space_unit_of(s),
    decreases s.len(),
{
    if s.len() > 0 {
        lemma_nonzero_spaces_unit(s.drop_last());
        let f = |x: Sample| space_count_of(x);
        assert(space_unit_of(s) == spec_maybe_gcd(unit_by(s.drop_last(), f), f(s.last()) as nat));
        if s.last().space_count > 0 {
            let xs = nonzero_spaces(s.drop_last());
            assert(xs.push(s.last().space_count).drop_last() =~= xs);
        }
    }
}

/// The tab width and space unit that `detect_indent` gives on success.
pub open spec fn detected_widths(tabs: bool, sp_counts: Seq<u32>, def_tab_width: u32) -> (u32, u32) {
    let sp_unit = unit_of_counts(sp_counts);
    let sum = max_of_counts(sp_counts) + sp_unit;
    let tab_width = if !tabs {
        0
    } else if sp_unit == 0 {
        def_tab_width as nat
    } else if sum > u32::MAX {
        u32::MAX as nat
    } else {
        sum
    };
    (tab_width as u32, sp_unit as u32)
}

/// The units that presence-only evidence stands for: the default tab width
/// where tabs were seen, and the gcd of the space counts.
pub open spec fn presence_units(tabs: bool, sp_counts: Seq<u32>, def_tab_width: u32) -> IndentUnits {
    IndentUnits {
        tab_unit: if tabs {
            def_tab_width
        } else {
            0
        },
        space_unit: unit_of_counts(sp_counts) as u32,
    }
}

/// Resolves a tab width and a space unit from whether tabs were seen and
/// the space counts. Without tabs the tab width is zero; with tabs and no
/// space evidence it is the default; with both it is the largest space
/// count plus the space unit (an approximation), saturating at `u32::MAX`.
/// The evidence is first checked against the rules of `validate`, with the
/// default as the configured tab width.
pub fn detect_indent(tabs: bool, sp_counts: &[u32], def_tab_width: u32) -> (r: Result<
    (u32, u32),
    IndentError,
>)
    requires
        def_tab_width > 0,
    ensures
        r is Err ==> spec_validate(
            presence_units(tabs, sp_counts@, def_tab_width),
            Config::DefaultTabWidth(def_tab_width),
        ) == Err::<IndentUnits, IndentError>(r->Err_0),
        r is Ok <==> spec_validate(
            presence_units(tabs, sp_counts@, def_tab_width),
            Config::DefaultTabWidth(def_tab_width),
        ) is Ok,
        r is Ok ==> r->Ok_0 == detected_widths(tabs, sp_counts@, def_tab_width),
        r is Ok ==> !(r->Ok_0.0 == 0 && r->Ok_0.1 == 0),
{
    let mut sp_unit: u32 = 0;
    let mut max_sp: u32 = 0;
    let mut i: usize = 0;
    while i < sp_counts.len()
        invariant
            i <= sp_counts@.len(),
            sp_unit as nat == unit_of_counts(sp_counts@.take(i as int)),
            max_sp as nat == max_of_counts(sp_counts@.take(i as int)),
        decreases sp_counts@.len() - i,
    {
        assert(sp_counts@.take(i + 1).drop_last() =~= sp_counts@.take(i as int));
        sp_unit = maybe_gcd(sp_unit, sp_counts[i]);
        if sp_counts[i] > max_sp {
            max_sp = sp_counts[i];
        }
        i = i + 1;
    }
    assert(sp_counts@.take(i as int) =~= sp_counts@);
    let units = IndentUnits { tab_unit: if tabs { def_tab_width } else { 0 }, space_unit: sp_unit };
    match validate(units, Config::DefaultTabWidth(def_tab_width)) {
        Err(e) => Err(e),
        Ok(_) => {
            let tab_width: u32 = if !tabs {
                0
            } else if sp_unit == 0 {
                def_tab_width
            } else {
                let sum: u64 = max_sp as u64 + sp_unit as u64;
                if sum > u32::MAX as u64 {
                    u32::MAX
                } else {
                    sum as u32
                }
            };
            Ok((tab_width, sp_unit))
        },
    }
}

} // verus!
