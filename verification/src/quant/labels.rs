//! Label vocabularies of the quant surface: price-curve kinds, 30/360
//! conventions and credit hierarchy dimensions.
use crate::text::str_equal;
use vstd::prelude::*;
use vstd::string::*;

verus! {

// ---------------------------------------------------------------------------
// Price-curve kinds
// ---------------------------------------------------------------------------

/// What a price curve quotes.
#[derive(Debug, Clone, Copy, PartialEq, Eq)]
pub enum PriceCurveKind {
    /// Prices in absolute units (signed prices allowed).
    Price,
    /// Non-negative volatility-index levels in vol points.
    VolIndex,
}

/// The label of a price-curve kind.
pub open spec fn price_curve_kind_label(kind: PriceCurveKind) -> Seq<char> {
    match kind {
        PriceCurveKind::Price => "price"@,
        PriceCurveKind::VolIndex => "vol_index"@,
    }
}

/// The price-curve kind a label names, if any.
pub open spec fn price_curve_kind_from_label(s: Seq<char>) -> Option<PriceCurveKind> {
    if s == "price"@ {
        Some(PriceCurveKind::Price)
    } else if s == "vol_index"@ {
        Some(PriceCurveKind::VolIndex)
    } else {
        None
    }
}

/// An unknown price-curve kind label.
#[derive(Debug, Clone, PartialEq, Eq)]
pub struct InvalidPriceCurveKind {
    /// The label that was given.
    pub given: String,
}

/// Parse a price-curve kind from its label, `"price"` or `"vol_index"`;
/// any other label is refused and carried in the error.
pub fn parse_price_curve_kind(s: &str) -> (r: Result<PriceCurveKind, InvalidPriceCurveKind>)
    ensures
        match r {
            Ok(kind) => price_curve_kind_from_label(s@) == Some(kind),
            Err(e) => price_curve_kind_from_label(s@) is None && e.given@ == s@,
        },
        s@ == "price"@ ==> r == Ok::<PriceCurveKind, InvalidPriceCurveKind>(PriceCurveKind::Price),
        s@ == "vol_index"@ ==> r == Ok::<PriceCurveKind, InvalidPriceCurveKind>(
            PriceCurveKind::VolIndex,
        ),
        s@ != "price"@ && s@ != "vol_index"@ ==> r is Err,
{
    proof {
        reveal_strlit("price");
        reveal_strlit("vol_index");
        assert("price"@.len() != "vol_index"@.len());
    }
    if str_equal(s, "price") {
        Ok(PriceCurveKind::Price)
    } else if str_equal(s, "vol_index") {
        Ok(PriceCurveKind::VolIndex)
    } else {
        Err(InvalidPriceCurveKind { given: String::from_str(s) })
    }
}

/// What `format!("{:?}", s)` writes for a string: the string quoted and
/// escaped by `str`'s `Debug` implementation.
pub uninterp spec fn debug_quoted(s: Seq<char>) -> Seq<char>;

/// Calls std's `Debug` formatting of a string (`format!("{:?}", s)`). The
/// contract names the result (`debug_quoted`, a function of the string
/// alone) and claims nothing more of it; the quoting and escaping rules are
/// not restated.
#[verifier::external_body]
fn std_debug_str(s: &str) -> (r: String)
    ensures
        r@ == debug_quoted(s@),
{
    format!("{:?}", s)
}

/// The message for an unknown price-curve kind, given the label as `Debug`
/// writes it.
pub fn price_curve_kind_message(quoted_label: &str) -> (r: String)
    ensures
        r@ == "Invalid price curve kind "@ + quoted_label@
            + ": expected \"price\" or \"vol_index\""@,
{
    let mut out = String::from_str("Invalid price curve kind ");
    out.append(quoted_label);
    out.append(": expected \"price\" or \"vol_index\"");
    out
}

impl InvalidPriceCurveKind {
    /// The message the error is reported with:
    /// `Invalid price curve kind <label as Debug writes it>: expected
    /// "price" or "vol_index"`.
    pub fn message(&self) -> (r: String)
        ensures
            r@ == "Invalid price curve kind "@ + debug_quoted(self.given@)
                + ": expected \"price\" or \"vol_index\""@,
    {
        let quoted = std_debug_str(self.given.as_str());
        price_curve_kind_message(quoted.as_str())
    }
}

/// The label of a price-curve kind: `"price"` or `"vol_index"`.
pub fn price_curve_kind_name(kind: PriceCurveKind) -> (r: &'static str)
    ensures
        r@ == price_curve_kind_label(kind),
        r@ == match kind {
            PriceCurveKind::Price => "price"@,
            PriceCurveKind::VolIndex => "vol_index"@,
        },
{
    match kind {
        PriceCurveKind::Price => "price",
        PriceCurveKind::VolIndex => "vol_index",
    }
}

/// Parsing the label of a kind gives the kind back, and a label that parses
/// is the label of the kind it gives.
pub proof fn lemma_price_curve_kind_round_trip(kind: PriceCurveKind, s: Seq<char>)
    ensures
        price_curve_kind_from_label(price_curve_kind_label(kind)) == Some(kind),
        price_curve_kind_from_label(s) matches Some(k) ==> price_curve_kind_label(k) == s,
{
    reveal_strlit("price");
    reveal_strlit("vol_index");
    assert("price"@.len() != "vol_index"@.len());
}

// ---------------------------------------------------------------------------
// 30/360 conventions
// ---------------------------------------------------------------------------

/// The 30/360 day-count conventions.
#[derive(Debug, Clone, Copy, PartialEq, Eq)]
pub enum Thirty360Convention {
    /// US (SIA / Bond Basis).
    UsSia,
    /// ISDA 30/360.
    Isda,
    /// European 30E/360.
    European,
    /// Italian 30/360.
    Italian,
}

/// The constant name of a convention (`"US_SIA"`, `"ISDA"`, ...).
pub open spec fn thirty360_constant(c: Thirty360Convention) -> Seq<char> {
    match c {
        Thirty360Convention::UsSia => "US_SIA"@,
        Thirty360Convention::Isda => "ISDA"@,
        Thirty360Convention::European => "EUROPEAN"@,
        Thirty360Convention::Italian => "ITALIAN"@,
    }
}

/// The lowercase label of a convention (`"us_sia"`, `"isda"`, ...).
pub open spec fn thirty360_label(c: Thirty360Convention) -> Seq<char> {
    match c {
        Thirty360Convention::UsSia => "us_sia"@,
        Thirty360Convention::Isda => "isda"@,
        Thirty360Convention::European => "european"@,
        Thirty360Convention::Italian => "italian"@,
    }
}

impl Thirty360Convention {
    /// The representation `Thirty360Convention.<CONSTANT>`.
    pub fn repr(&self) -> (r: String)
        ensures
            r@ == "Thirty360Convention."@ + thirty360_constant(*self),
            r@ == "Thirty360Convention."@ + match *self {
                Thirty360Convention::UsSia => "US_SIA"@,
                Thirty360Convention::Isda => "ISDA"@,
                Thirty360Convention::European => "EUROPEAN"@,
                Thirty360Convention::Italian => "ITALIAN"@,
            },
    {
        let mut out = String::from_str("Thirty360Convention.");
        let constant = match self {
            Thirty360Convention::UsSia => "US_SIA",
            Thirty360Convention::Isda => "ISDA",
            Thirty360Convention::European => "EUROPEAN",
            Thirty360Convention::Italian => "ITALIAN",
        };
        out.append(constant);
        out
    }

    /// The lowercase label of the convention.
    pub fn label(&self) -> (r: String)
        ensures
            r@ == thirty360_label(*self),
            r@ == match *self {
                Thirty360Convention::UsSia => "us_sia"@,
                Thirty360Convention::Isda => "isda"@,
                Thirty360Convention::European => "european"@,
                Thirty360Convention::Italian => "italian"@,
            },
    {
        match self {
            Thirty360Convention::UsSia => String::from_str("us_sia"),
            Thirty360Convention::Isda => String::from_str("isda"),
            Thirty360Convention::European => String::from_str("european"),
            Thirty360Convention::Italian => String::from_str("italian"),
        }
    }
}

// ---------------------------------------------------------------------------
// Credit hierarchy dimensions
// ---------------------------------------------------------------------------

/// A level of a credit factor hierarchy.
#[derive(Debug, Clone)]
pub enum HierarchyDimension {
    /// Credit rating.
    Rating,
    /// Geographic region.
    Region,
    /// Industry sector.
    Sector,
    /// A dimension named by the user.
    Custom(String),
}

/// The display label of a hierarchy dimension.
pub open spec fn dimension_label_spec(dim: HierarchyDimension) -> Seq<char> {
    match dim {
        HierarchyDimension::Rating => "Rating"@,
        HierarchyDimension::Region => "Region"@,
        HierarchyDimension::Sector => "Sector"@,
        HierarchyDimension::Custom(name) => name@,
    }
}

/// The display label of a hierarchy dimension: its name, or the user's
/// name for a custom dimension.
pub fn dimension_label(dim: &HierarchyDimension) -> (r: String)
    ensures
        r@ == dimension_label_spec(*dim),
        r@ == match *dim {
            HierarchyDimension::Rating => "Rating"@,
            HierarchyDimension::Region => "Region"@,
            HierarchyDimension::Sector => "Sector"@,
            HierarchyDimension::Custom(name) => name@,
        },
{
    match dim {
        HierarchyDimension::Rating => String::from_str("Rating"),
        HierarchyDimension::Region => String::from_str("Region"),
        HierarchyDimension::Sector => String::from_str("Sector"),
        HierarchyDimension::Custom(name) => String::from_str(name.as_str()),
    }
}

} // verus!
